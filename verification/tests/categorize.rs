use filter_pipeline::cache::CachedSet;
use filter_pipeline::config::Config;
use filter_pipeline::filter_list::FilterList;
use filter_pipeline::input::file::read_lines;
use filter_pipeline::input::Read;
use filter_pipeline::output::OutputType;
use filter_pipeline::stages::categorize::{
    categorize, normalize_line, plan_categorize, Absorbed, CategoryVerdict, Line, LineSet,
};

fn list(id: &str, tags: &[&str]) -> FilterList {
    FilterList {
        id: id.to_string(),
        comment: None,
        compression: None,
        source: String::new(),
        tags: tags.iter().map(|t| t.to_string()).collect(),
        regex: r"(.*)".to_string(),
    }
}

fn config(lists: Vec<FilterList>, cached_config: Option<Config>) -> Config {
    Config {
        lists,
        cache_dir: "cache".to_string(),
        output_dir: "output".to_string(),
        output_format: OutputType::Hostsfile,
        cached_config: cached_config.map(Box::new),
    }
}

fn chunks(content: &str) -> Vec<Vec<u8>> {
    read_lines(&Vec::from(content), None).lines
}

fn category_file(config: &Config, tag: &str, contents: &[(&str, &str)]) -> String {
    let sources: Vec<Vec<Vec<u8>>> = config
        .lists_with_tag(&tag.to_string())
        .iter()
        .map(|l| {
            let content = contents.iter().find(|(id, _)| *id == l.id).unwrap().1;
            chunks(content)
        })
        .collect();
    String::from_utf8(categorize(&sources).render()).unwrap()
}

#[test]
fn test_categorize_successful() {
    let config = config(
        vec![
            list("advertising", &["advertising"]),
            list("malware", &["malware"]),
            list("advertising_malware", &["malware", "advertising"]),
        ],
        None,
    );
    let contents = vec![
        vec!["one.domain", "another.domain"].join("\n"),
        vec!["third.domain", "fourth.domain"].join("\n"),
        vec!["fith.domain", "sixth.domain"].join("\n"),
    ];
    let files: Vec<(&str, &str)> = (0..=2)
        .map(|i| (config.lists[i].id.as_str(), contents[i].as_str()))
        .collect();

    let mut advertising = vec![
        contents[0].split("\n").collect::<Vec<&str>>(),
        contents[2].split("\n").collect::<Vec<&str>>(),
    ]
    .concat();
    let mut malware = vec![
        contents[1].split("\n").collect::<Vec<&str>>(),
        contents[2].split("\n").collect::<Vec<&str>>(),
    ]
    .concat();
    advertising.sort();
    malware.sort();

    assert_eq!(advertising.join("\n") + "\n", category_file(&config, "advertising", &files));
    assert_eq!(malware.join("\n") + "\n", category_file(&config, "malware", &files));
}

#[test]
fn two_lists_with_common_domains_are_merged_once() {
    let config = config(vec![list("L1", &["mal"]), list("L2", &["mal"])], None);
    let files = [("L1", "x\ny\n"), ("L2", "y\nz\n")];
    assert_eq!(category_file(&config, "mal", &files), "x\ny\nz\n");
}

#[test]
fn three_lists_under_two_tags() {
    let config = config(
        vec![list("L1", &["ad"]), list("L2", &["mal"]), list("L3", &["ad", "mal"])],
        None,
    );
    let files = [("L1", "one\ntwo"), ("L2", "three\nfour"), ("L3", "five\nsix")];
    assert_eq!(category_file(&config, "ad", &files), "five\none\nsix\ntwo\n");
    assert_eq!(category_file(&config, "mal", &files), "five\nfour\nsix\nthree\n");
}

#[test]
fn categorize_of_nothing_is_an_empty_file() {
    assert_eq!(categorize(&vec![]).render(), Vec::<u8>::new());
    assert_eq!(categorize(&vec![vec![], vec![]]).render(), Vec::<u8>::new());
}

#[test]
fn categorize_trims_and_drops_blank_and_undecodable_chunks() {
    let sources = vec![vec![
        Vec::from("  b.example \t\n"),
        Vec::from("\n"),
        Vec::from("   "),
        vec![0xff, 0x0a],
        Vec::from("a.example"),
        Vec::from("\u{a0}b.example\u{2003}\n"),
    ]];
    let set = categorize(&sources);
    assert_eq!(set.len(), 2);
    assert_eq!(set.render(), Vec::from("a.example\nb.example\n"));
}

#[test]
fn normalize_line_tells_the_three_cases_apart() {
    assert!(matches!(normalize_line(&vec![0xc3, 0x28]), Line::Undecodable));
    assert!(matches!(normalize_line(&Vec::from(" \r\n")), Line::Blank));
    assert!(matches!(normalize_line(&vec![]), Line::Blank));
    match normalize_line(&Vec::from(" a b \n")) {
        Line::Text(bytes) => assert_eq!(bytes, Vec::from("a b")),
        other => panic!("unexpected: {:?}", other),
    }
}

#[test]
fn line_set_keeps_its_lines_sorted_and_single() {
    let mut set = LineSet::new();
    assert!(set.insert(Vec::from("m")));
    assert!(set.insert(Vec::from("a")));
    assert!(set.insert(Vec::from("z")));
    assert!(set.insert(Vec::from("mm")));
    assert!(!set.insert(Vec::from("a")));
    assert!(!set.insert(Vec::from("z")));
    assert!(!set.insert(vec![]));
    assert_eq!(set.len(), 4);
    assert_eq!(set.line(0), &Vec::from("a"));
    assert_eq!(set.line(1), &Vec::from("m"));
    assert_eq!(set.line(2), &Vec::from("mm"));
    assert_eq!(set.line(3), &Vec::from("z"));
    assert!(set.contains(&Vec::from("mm")));
    assert!(!set.contains(&Vec::from("mmm")));
    assert!(!set.contains(&vec![]));
    assert_eq!(set.render(), Vec::from("a\nm\nmm\nz\n"));
}

#[test]
fn line_set_orders_like_a_tree_set_of_strings() {
    let words = ["pear", "Apple", "apple", "äpfel", "fig", "apple.", "app", "fig", "zebra", "0"];
    let mut set = LineSet::new();
    let mut tree = std::collections::BTreeSet::new();
    for w in words {
        assert_eq!(set.insert(Vec::from(w)), tree.insert(w.to_string()));
    }
    let want: String = tree.iter().map(|l| format!("{}\n", l)).collect();
    assert_eq!(String::from_utf8(set.render()).unwrap(), want);
}

#[test]
fn absorb_reports_what_became_of_the_chunk() {
    let mut set = LineSet::new();
    assert_eq!(set.absorb(&Vec::from("a.example\n")), Absorbed::Added);
    assert_eq!(set.absorb(&Vec::from("  a.example")), Absorbed::Known);
    assert_eq!(set.absorb(&Vec::from("\n")), Absorbed::Blank);
    assert_eq!(set.absorb(&vec![0x80]), Absorbed::Undecodable);
    assert_eq!(set.len(), 1);
}

#[test]
fn take_reads_a_list_to_its_end_or_to_its_failure() {
    let mut set = LineSet::new();
    assert_eq!(set.take(Read::Chunk(Vec::from("b\n"))), Some(Absorbed::Added));
    assert_eq!(set.take(Read::Chunk(vec![0xff])), Some(Absorbed::Undecodable));
    assert_eq!(set.take(Read::Failed), None);
    assert_eq!(set.take(Read::Chunk(Vec::from("a\n"))), Some(Absorbed::Added));
    assert_eq!(set.take(Read::End), None);
    assert_eq!(set.render(), Vec::from("a\nb\n"));
}

fn cached(names: &[&str]) -> CachedSet {
    let mut set = CachedSet::new();
    for n in names {
        set.insert(n.to_string());
    }
    set
}

#[test]
fn plan_categorize_leaves_a_complete_category_alone() {
    let lists = || vec![list("a", &["ad"]), list("b", &["ad", "mal"]), list("c", &["mal"])];
    let config = config(lists(), Some(config(lists(), None)));
    let plan = plan_categorize(&config, &cached(&["a", "b", "c"]), &vec![true, true]);
    assert_eq!(plan.tags, vec!["ad", "mal"]);
    assert_eq!(plan.verdicts, vec![CategoryVerdict::Unchanged, CategoryVerdict::Unchanged]);
    assert!(plan.cached_tags.contains("ad"));
    assert!(plan.cached_tags.contains("mal"));
    assert!(!plan.cached_tags.contains("a"));
}

#[test]
fn plan_categorize_redoes_a_category_with_an_updated_list() {
    let lists = || vec![list("a", &["ad"]), list("b", &["ad", "mal"]), list("c", &["mal"])];
    let config = config(lists(), Some(config(lists(), None)));
    let plan = plan_categorize(&config, &cached(&["a", "b"]), &vec![true, true]);
    assert_eq!(plan.verdicts, vec![CategoryVerdict::Unchanged, CategoryVerdict::Update]);
    assert!(plan.cached_tags.contains("ad"));
    assert!(!plan.cached_tags.contains("mal"));
}

#[test]
fn plan_categorize_redoes_a_category_without_its_file() {
    let lists = || vec![list("a", &["ad"]), list("b", &["mal"])];
    let config = config(lists(), Some(config(lists(), None)));
    let plan = plan_categorize(&config, &cached(&["a", "b"]), &vec![false, true]);
    assert_eq!(plan.verdicts, vec![CategoryVerdict::Update, CategoryVerdict::Unchanged]);
    let short = plan_categorize(&config, &cached(&["a", "b"]), &vec![true]);
    assert_eq!(short.verdicts, vec![CategoryVerdict::Unchanged, CategoryVerdict::Update]);
}

#[test]
fn plan_categorize_redoes_everything_without_a_last_run() {
    let config = config(vec![list("a", &["ad"])], None);
    let plan = plan_categorize(&config, &cached(&["a"]), &vec![true]);
    assert_eq!(plan.verdicts, vec![CategoryVerdict::Update]);
    assert!(!plan.cached_tags.contains("ad"));
}

#[test]
fn plan_categorize_redoes_a_category_whose_membership_changed() {
    let now = vec![list("a", &["ad"]), list("b", &["mal"])];
    let then = vec![list("a", &["ad"]), list("b", &["mal"]), list("c", &["ad"])];
    let config = config(now, Some(config(then, None)));
    let plan = plan_categorize(&config, &cached(&["a", "b"]), &vec![true, true]);
    assert_eq!(plan.verdicts, vec![CategoryVerdict::Update, CategoryVerdict::Unchanged]);
}
