use filter_pipeline::cache::CachedSet;
use filter_pipeline::config::Config;
use filter_pipeline::filter_controller::{
    process, Failure, Outcome, PassThrough, Task, Transform, TransformError,
};
use filter_pipeline::filter_list::FilterList;
use filter_pipeline::input::file::read_lines;
use filter_pipeline::input::Read;
use filter_pipeline::io::filter_list_io::InputFile;
use filter_pipeline::output::OutputType;
use filter_pipeline::stages::categorize::{categorize, plan_categorize, CategoryVerdict};
use filter_pipeline::stages::download::{plan_download, DownloadProbe, DownloadVerdict};
use filter_pipeline::stages::extract::{plan_extract, ExtractProbe, ExtractVerdict, RegexMatch};
use filter_pipeline::stages::output::{plan_output, OutputProbe, OutputVerdict};

fn ads() -> FilterList {
    FilterList {
        id: "ads".to_string(),
        comment: None,
        compression: None,
        source: "http://x/ads".to_string(),
        tags: vec!["advertising".to_string()],
        regex: "^0\\.0\\.0\\.0 (.*)$".to_string(),
    }
}

fn config(cached_config: Option<Config>) -> Config {
    Config {
        lists: vec![ads()],
        cache_dir: "cache".to_string(),
        output_dir: "output".to_string(),
        output_format: OutputType::Hostsfile,
        cached_config: cached_config.map(Box::new),
    }
}

const SERVED: &str = "0.0.0.0 a.example\n0.0.0.0 b.example\n# comment\n";

/// What a run finds: `None` where the file is not there, else its length.
struct Disk {
    download: Option<u64>,
    extract: Option<u64>,
    categorize: bool,
    output: bool,
}

/// The verdicts of the four stages on the one list and its one tag.
fn verdicts(
    config: &Config,
    disk: &Disk,
) -> (DownloadVerdict, ExtractVerdict, CategoryVerdict, OutputVerdict) {
    let download = plan_download(
        config,
        &vec![DownloadProbe { local_len: disk.download, remote_len: Some(SERVED.len() as u64) }],
    );
    let fetched = match download.verdicts[0] {
        DownloadVerdict::Update => Some(SERVED.len() as u64),
        _ => disk.download,
    };
    let extract = plan_extract(
        config,
        download.cached_lists,
        &vec![ExtractProbe {
            download: match fetched {
                None => InputFile::Missing,
                Some(0) => InputFile::Empty,
                Some(_) => InputFile::Ready,
            },
            extract_exists: disk.extract.is_some(),
        }],
    );
    let categorize = plan_categorize(config, &extract.cached_lists, &vec![disk.categorize]);
    let output = plan_output(
        config,
        &categorize.cached_tags,
        &vec![OutputProbe { category_exists: true, output_exists: disk.output }],
    );
    (download.verdicts[0], extract.verdicts[0], categorize.verdicts[0], output.verdicts[0])
}

#[test]
fn single_list_is_extracted_categorized_and_written() {
    let config = config(None);
    let list = &config.lists[0];

    let body = read_lines(&Vec::from(SERVED), None).lines;
    let downloaded = process(list, &PassThrough, &body).output;
    assert_eq!(downloaded, Vec::from(SERVED));

    let extracted = process(list, &RegexMatch, &read_lines(&downloaded, None).lines);
    assert_eq!(extracted.output, Vec::from("a.example\nb.example\n"));
    assert_eq!(extracted.chunks_matched, 2);
    assert_eq!(extracted.chunks_skipped, 1);

    let category = categorize(&vec![read_lines(&extracted.output, None).lines]).render();
    assert_eq!(category, Vec::from("a.example\nb.example\n"));

    let written = config.output_format.render(&read_lines(&category, None).lines);
    assert_eq!(written, Vec::from("0.0.0.0 a.example\n0.0.0.0 b.example\n"));
}

#[test]
fn first_run_does_all_the_work() {
    let disk = Disk { download: None, extract: None, categorize: false, output: false };
    assert_eq!(
        verdicts(&config(None), &disk),
        (
            DownloadVerdict::Update,
            ExtractVerdict::Update,
            CategoryVerdict::Update,
            OutputVerdict::Emit
        )
    );
}

#[test]
fn second_run_on_an_intact_cache_does_nothing() {
    let disk = Disk {
        download: Some(SERVED.len() as u64),
        extract: Some(20),
        categorize: true,
        output: true,
    };
    assert_eq!(
        verdicts(&config(Some(config(None))), &disk),
        (
            DownloadVerdict::Unchanged,
            ExtractVerdict::Unchanged,
            CategoryVerdict::Unchanged,
            OutputVerdict::Unchanged
        )
    );
}

#[test]
fn missing_category_file_is_made_again_and_written_again() {
    let disk = Disk {
        download: Some(SERVED.len() as u64),
        extract: Some(20),
        categorize: false,
        output: true,
    };
    assert_eq!(
        verdicts(&config(Some(config(None))), &disk),
        (
            DownloadVerdict::Unchanged,
            ExtractVerdict::Unchanged,
            CategoryVerdict::Update,
            OutputVerdict::Emit
        )
    );
}

#[test]
fn missing_extract_file_is_made_again_with_all_that_follows() {
    let disk = Disk {
        download: Some(SERVED.len() as u64),
        extract: None,
        categorize: true,
        output: true,
    };
    assert_eq!(
        verdicts(&config(Some(config(None))), &disk),
        (
            DownloadVerdict::Unchanged,
            ExtractVerdict::Update,
            CategoryVerdict::Update,
            OutputVerdict::Emit
        )
    );
}

#[test]
fn changed_source_is_fetched_again_with_all_that_follows() {
    let disk = Disk { download: Some(3), extract: Some(20), categorize: true, output: true };
    assert_eq!(
        verdicts(&config(Some(config(None))), &disk),
        (
            DownloadVerdict::Update,
            ExtractVerdict::Update,
            CategoryVerdict::Update,
            OutputVerdict::Emit
        )
    );
}

#[test]
fn tag_that_is_named_like_a_cached_list_is_not_taken_for_cached() {
    let mut list = ads();
    list.id = "advertising".to_string();
    let config = Config {
        lists: vec![list],
        cache_dir: "cache".to_string(),
        output_dir: "output".to_string(),
        output_format: OutputType::Hostsfile,
        cached_config: None,
    };
    let mut cached_lists = CachedSet::new();
    cached_lists.insert("advertising".to_string());
    let categorize = plan_categorize(&config, &cached_lists, &vec![true]);
    assert_eq!(categorize.verdicts, vec![CategoryVerdict::Update]);
    let output = plan_output(
        &config,
        &categorize.cached_tags,
        &vec![OutputProbe { category_exists: true, output_exists: true }],
    );
    assert_eq!(output.verdicts, vec![OutputVerdict::Emit]);
}

#[test]
fn cancelled_task_reads_and_writes_nothing_more() {
    let list = ads();
    let mut task = Task::new();
    assert!(task.begin(true));
    match task.take(&list, &RegexMatch, Read::Chunk(Vec::from("0.0.0.0 a.example\n"))) {
        Outcome::Write(bytes) => assert_eq!(bytes, Vec::from("a.example\n")),
        other => panic!("unexpected: {:?}", other),
    }
    assert!(!task.begin(false));
    assert_eq!(task.chunks_matched(), 1);
    assert_eq!(task.chunks_skipped(), 0);
}

#[test]
fn task_counts_and_ends() {
    let list = ads();
    let mut task = Task::new();
    assert!(matches!(
        task.take(&list, &RegexMatch, Read::Chunk(Vec::from("# comment\n"))),
        Outcome::Skip
    ));
    assert!(matches!(
        task.take(&list, &RegexMatch, Read::Chunk(Vec::from("0.0.0.0 a\n"))),
        Outcome::Write(_)
    ));
    assert_eq!((task.chunks_matched(), task.chunks_skipped()), (1, 1));
    assert!(task.begin(true));
    assert!(matches!(task.take(&list, &RegexMatch, Read::End), Outcome::Finish));
    assert!(!task.begin(true));

    let mut failing = Task::new();
    assert!(matches!(
        failing.take(&list, &RegexMatch, Read::Failed),
        Outcome::Abort(Failure::Read)
    ));
    assert!(!failing.begin(true));

    let mut undecodable = Task::new();
    assert!(matches!(
        undecodable.take(&list, &RegexMatch, Read::Chunk(vec![0xff])),
        Outcome::Undecodable
    ));
    assert!(undecodable.begin(true));
    assert_eq!((undecodable.chunks_matched(), undecodable.chunks_skipped()), (0, 1));

    let mut refused = Task::new();
    let mut broken = ads();
    broken.regex = "(".to_string();
    assert!(matches!(
        refused.take(&broken, &RegexMatch, Read::Chunk(Vec::from("a\n"))),
        Outcome::Abort(Failure::Transform(TransformError::Regex(_)))
    ));
    assert!(!refused.begin(true));
}

#[test]
fn failed_write_ends_the_task() {
    let list = ads();
    let mut task = Task::new();
    assert!(task.begin(true));
    assert!(matches!(
        task.take(&list, &RegexMatch, Read::Chunk(Vec::from("0.0.0.0 a\n"))),
        Outcome::Write(_)
    ));
    task.wrote(true);
    assert!(task.begin(true));
    task.wrote(false);
    assert!(!task.begin(true));
    assert_eq!(task.chunks_matched(), 1);
}

#[test]
fn pass_through_hands_every_chunk_on() {
    let list = ads();
    assert_eq!(PassThrough.apply(&list, Some(vec![0xff, 0x00])).unwrap(), Some(vec![0xff, 0x00]));
    assert_eq!(PassThrough.apply(&list, Some(vec![])).unwrap(), Some(vec![]));
    assert_eq!(PassThrough.apply(&list, None).unwrap(), None);
    let report = process(&list, &PassThrough, &vec![vec![1, 2], vec![], vec![3]]);
    assert_eq!(report.output, vec![1, 2, 3]);
    assert_eq!(report.chunks_matched, 3);
    assert!(report.failure.is_none());
}

#[test]
fn refused_expression_ends_the_task_at_its_first_chunk() {
    let mut list = ads();
    list.regex = "(".to_string();
    let report = process(&list, &RegexMatch, &vec![Vec::from("a\n"), Vec::from("b\n")]);
    assert!(report.output.is_empty());
    assert_eq!((report.chunks_matched, report.chunks_skipped), (0, 0));
    match report.failure {
        Some(TransformError::Regex(message)) => assert!(message.starts_with("List ads - ")),
        other => panic!("unexpected: {:?}", other),
    }
}
