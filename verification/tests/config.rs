use filter_pipeline::config::{
    is_cache_file, Config, CACHED_CONF_FILE_NAME, CATEGORIZE_PATH, DOWNLOAD_PATH, EXTRACT_PATH,
};
use filter_pipeline::filter_list::FilterList;
use filter_pipeline::output::OutputType;

fn list(id: &str, tags: &[&str]) -> FilterList {
    FilterList {
        id: id.to_string(),
        comment: None,
        compression: None,
        source: String::new(),
        tags: tags.iter().map(|t| t.to_string()).collect(),
        regex: "(.*)".to_string(),
    }
}

fn config(lists: Vec<FilterList>) -> Config {
    Config {
        lists,
        cache_dir: "cache".to_string(),
        output_dir: "out".to_string(),
        output_format: OutputType::Hostsfile,
        cached_config: None,
    }
}

#[test]
fn get_tags_keeps_first_occurrence_order() {
    let c = config(vec![
        list("a", &["advertising"]),
        list("b", &["malware"]),
        list("c", &["malware", "advertising", "tracking", "malware"]),
    ]);
    assert_eq!(c.get_tags(), vec!["advertising", "malware", "tracking"]);
}

#[test]
fn get_tags_of_no_lists_is_empty() {
    assert!(config(vec![]).get_tags().is_empty());
}

#[test]
fn lists_with_tag_keeps_configuration_order() {
    let c = config(vec![
        list("a", &["advertising"]),
        list("b", &["malware"]),
        list("c", &["malware", "advertising"]),
    ]);
    let found = c.lists_with_tag(&"malware".to_string());
    let ids: Vec<&str> = found.iter().map(|l| l.id.as_str()).collect();
    assert_eq!(ids, vec!["b", "c"]);
    assert!(c.lists_with_tag(&"none".to_string()).is_empty());
}

#[test]
fn cache_file_lies_in_the_cache_directory() {
    let c = config(vec![]);
    assert_eq!(c.cache_file(), "cache/last_conf.json");
}

#[test]
fn is_cache_file_goes_by_the_last_component() {
    assert!(is_cache_file("cache/last_conf.json"));
    assert!(is_cache_file("last_conf.json"));
    assert!(is_cache_file("/var/cache/lists/last_conf.json"));
    assert!(!is_cache_file("cache/conf.json"));
    assert!(!is_cache_file("cache/my_last_conf.json"));
    assert!(!is_cache_file("cache/last_conf.json.bak"));
    assert!(!is_cache_file(""));
}

#[test]
fn attach_and_forget_the_configuration_of_the_last_run() {
    let mut c = config(vec![list("a", &["advertising"])]);
    assert!(c.cached_config.is_none());
    c.attach_cached(Some(config(vec![list("b", &["malware"])])));
    assert_eq!(c.cached_config.as_ref().unwrap().lists[0].id, "b");
    assert_eq!(c.lists[0].id, "a");
    c.forget_cached();
    assert!(c.cached_config.is_none());
    assert_eq!(c.lists[0].id, "a");
    c.attach_cached(None);
    assert!(c.cached_config.is_none());
}

#[test]
fn names_of_the_cache_directories() {
    assert_eq!(DOWNLOAD_PATH, "download");
    assert_eq!(EXTRACT_PATH, "extract");
    assert_eq!(CATEGORIZE_PATH, "categorize");
    assert_eq!(CACHED_CONF_FILE_NAME, "last_conf.json");
}

#[test]
fn has_tag_compares_whole_tags() {
    let l = list("a", &["advertising", "malware"]);
    assert!(l.has_tag(&"malware".to_string()));
    assert!(!l.has_tag(&"mal".to_string()));
    assert!(!l.has_tag(&"".to_string()));
}

#[test]
fn ids_of_the_lists_must_differ() {
    assert!(config(vec![]).has_unique_ids());
    assert!(config(vec![list("a", &[]), list("b", &[]), list("c", &[])]).has_unique_ids());
    assert!(!config(vec![list("a", &[]), list("b", &[]), list("a", &[])]).has_unique_ids());
    assert!(!config(vec![list("a", &[]), list("a", &[])]).has_unique_ids());
}
