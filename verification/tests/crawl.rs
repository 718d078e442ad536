use gsi::cache::CachedLayers;
use gsi::crawl::{merge_layer_cache, resolve_src_url, Crawl};
use gsi::error::GsiError;
use gsi::layers::{Layer, LayerGroup, LayerVariant, Layers, LeafletStringOrStringArray};

fn layer(id: &str, title: &str) -> Layer {
    Layer {
        ty: "Layer".to_string(),
        id: id.to_string(),
        title: title.to_string(),
        url: format!("https://h/{}/{{z}}/{{x}}/{{y}}.png", id),
        subdomains: LeafletStringOrStringArray::String("abc".to_string()),
        attribution: String::new(),
        cocotile: true,
        min_zoom: None,
        max_zoom: None,
        max_native_zoom: None,
        icon_url: String::new(),
        legend_url: String::new(),
        style_url: String::new(),
        error_tile_url: String::new(),
        bounds: None,
        html: String::new(),
    }
}

fn leaf(id: &str, title: &str) -> LayerVariant {
    LayerVariant::Layer(layer(id, title))
}

fn group(title: &str, src: &str, entries: Vec<LayerVariant>) -> LayerVariant {
    LayerVariant::LayerGroup(LayerGroup {
        ty: "LayerGroup".to_string(),
        id: String::new(),
        title: title.to_string(),
        toggleall: false,
        entries,
        src: src.to_string(),
        icon_url: String::new(),
        legend_url: String::new(),
        html: String::new(),
    })
}

fn sorted(cache: CachedLayers) -> Vec<(String, Layer)> {
    let mut entries = cache.into_entries();
    entries.sort_by(|a, b| a.0.cmp(&b.0));
    entries
}

fn document() -> Layers {
    Layers {
        layers: vec![
            leaf("a", "first a"),
            group(
                "g",
                "./more.txt",
                vec![leaf("b", "b"), group("h", "", vec![leaf("a", "second a")])],
            ),
            group("k", "https://other/x.txt", vec![]),
            leaf("c", "c"),
        ],
    }
}

#[test]
fn cache_starts_empty() {
    let cache = CachedLayers::new();
    assert_eq!(cache.len(), 0);
    assert!(cache.is_empty());
    assert!(!cache.contains_key("a"));
    assert!(cache.get("a").is_none());
    assert!(cache.into_entries().is_empty());
}

#[test]
fn cache_insert_overwrites_under_the_same_id() {
    let mut cache = CachedLayers::new();
    assert!(cache.insert("a".to_string(), layer("a", "one")).is_none());
    assert!(cache.insert("b".to_string(), layer("b", "two")).is_none());
    assert_eq!(cache.len(), 2);
    let previous = cache.insert("a".to_string(), layer("a", "three"));
    assert_eq!(previous, Some(layer("a", "one")));
    assert_eq!(cache.len(), 2);
    assert!(!cache.is_empty());
    assert!(cache.contains_key("a"));
    assert!(cache.contains_key("b"));
    assert!(!cache.contains_key("c"));
    assert_eq!(cache.get("a"), Some(&layer("a", "three")));
    assert_eq!(cache.get("b"), Some(&layer("b", "two")));
    assert_eq!(cache.get("c"), None);
    assert_eq!(
        sorted(cache),
        vec![("a".to_string(), layer("a", "three")), ("b".to_string(), layer("b", "two"))]
    );
}

#[test]
fn cache_keeps_a_layer_under_the_id_given() {
    let mut cache = CachedLayers::new();
    cache.insert("key".to_string(), layer("a", "one"));
    assert!(cache.contains_key("key"));
    assert!(!cache.contains_key("a"));
    assert_eq!(cache.get("key").unwrap().id, "a");
}

#[test]
fn merge_stores_leaves_of_every_depth_and_the_last_of_an_id() {
    let mut cache = CachedLayers::new();
    let groups = merge_layer_cache(&mut cache, &document());
    assert_eq!(cache.len(), 3);
    assert_eq!(cache.get("a").unwrap().title, "second a");
    assert_eq!(cache.get("b").unwrap().title, "b");
    assert_eq!(cache.get("c").unwrap().title, "c");
    let sources: Vec<&str> = groups.iter().map(|g| g.src.as_str()).collect();
    assert_eq!(sources, vec!["./more.txt", "https://other/x.txt"]);
    assert_eq!(groups[0].title, "g");
    assert_eq!(groups[0].entries.len(), 2);
}

#[test]
fn merge_stores_no_group_and_returns_no_group_without_source() {
    let mut cache = CachedLayers::new();
    let layers = Layers { layers: vec![group("g", "", vec![group("h", "", vec![])])] };
    let groups = merge_layer_cache(&mut cache, &layers);
    assert!(cache.is_empty());
    assert!(groups.is_empty());
}

#[test]
fn merge_finds_a_group_with_source_below_a_group_without() {
    let mut cache = CachedLayers::new();
    let layers = Layers { layers: vec![group("g", "", vec![group("h", "./h.txt", vec![])])] };
    let groups = merge_layer_cache(&mut cache, &layers);
    assert_eq!(groups.len(), 1);
    assert_eq!(groups[0].title, "h");
}

#[test]
fn merging_the_same_document_into_fresh_caches_gives_the_same_cache() {
    let mut one = CachedLayers::new();
    let mut other = CachedLayers::new();
    merge_layer_cache(&mut one, &document());
    merge_layer_cache(&mut other, &document());
    assert_eq!(sorted(one), sorted(other));
}

#[test]
fn merging_a_document_twice_changes_nothing() {
    let mut once = CachedLayers::new();
    merge_layer_cache(&mut once, &document());
    let mut twice = CachedLayers::new();
    merge_layer_cache(&mut twice, &document());
    merge_layer_cache(&mut twice, &document());
    assert_eq!(sorted(once), sorted(twice));
}

#[test]
fn merging_two_documents_with_one_id_keeps_the_second() {
    let first = Layers { layers: vec![leaf("a", "from the first"), leaf("b", "b")] };
    let second = Layers { layers: vec![leaf("a", "from the second")] };
    let mut cache = CachedLayers::new();
    merge_layer_cache(&mut cache, &first);
    merge_layer_cache(&mut cache, &second);
    assert_eq!(cache.len(), 2);
    assert_eq!(cache.get("a").unwrap().title, "from the second");
    assert_eq!(cache.get("b").unwrap().title, "b");
}

#[test]
fn relative_source_is_appended_to_the_directory_as_it_is() {
    assert_eq!(resolve_src_url("https://h/dir/doc.txt", "./more.txt"), "https://h/dir/./more.txt");
}

#[test]
fn absolute_source_stays() {
    assert_eq!(
        resolve_src_url("https://h/dir/doc.txt", "https://other/x.txt"),
        "https://other/x.txt"
    );
    assert_eq!(resolve_src_url("no slash", "more.txt"), "more.txt");
    assert_eq!(resolve_src_url("https://h/dir/doc.txt", "../more.txt"), "../more.txt");
    assert_eq!(resolve_src_url("https://h/dir/doc.txt", "."), ".");
    assert_eq!(resolve_src_url("https://h/dir/doc.txt", ""), "");
}

#[test]
fn directory_is_what_stands_before_the_last_slash() {
    assert_eq!(resolve_src_url("a/b/", "./c"), "a/b/./c");
    assert_eq!(resolve_src_url("/doc", "./c"), "/./c");
    assert_eq!(resolve_src_url("a//b", "./"), "a//./");
}

#[test]
fn relative_source_stays_where_the_document_has_no_directory() {
    assert_eq!(resolve_src_url("doc.txt", "./more.txt"), "./more.txt");
    assert_eq!(resolve_src_url("", "./"), "./");
}

#[test]
fn crawl_visits_seeds_in_order() {
    let mut crawl = Crawl::new(&["https://h/a.txt", "https://h/b.txt"], false);
    assert_eq!(crawl.next_url(), Some("https://h/a.txt".to_string()));
    assert_eq!(crawl.next_url(), Some("https://h/b.txt".to_string()));
    assert_eq!(crawl.next_url(), None);
    assert_eq!(crawl.next_url(), None);
    assert!(crawl.into_cache().is_empty());
}

#[test]
fn crawl_without_seeds_is_complete() {
    let mut crawl = Crawl::new(&[], true);
    assert_eq!(crawl.next_url(), None);
}

#[test]
fn crawl_follows_sources_after_the_seeds() {
    let mut crawl = Crawl::new(&["https://h/dir/doc.txt", "https://h/dir/last.txt"], true);
    let url = crawl.next_url().unwrap();
    assert_eq!(url, "https://h/dir/doc.txt");
    crawl.merge(&url, &document());
    assert_eq!(crawl.next_url(), Some("https://h/dir/last.txt".to_string()));
    assert_eq!(crawl.next_url(), Some("https://h/dir/./more.txt".to_string()));
    let url = crawl.next_url().unwrap();
    assert_eq!(url, "https://other/x.txt");
    crawl.merge(&url, &Layers { layers: vec![leaf("c", "newer c"), leaf("d", "d")] });
    assert_eq!(crawl.next_url(), None);
    let cache = crawl.into_cache();
    assert_eq!(cache.len(), 4);
    assert_eq!(cache.get("a").unwrap().title, "second a");
    assert_eq!(cache.get("c").unwrap().title, "newer c");
    assert_eq!(cache.get("d").unwrap().title, "d");
}

#[test]
fn crawl_that_does_not_resolve_sources_merges_only() {
    let mut crawl = Crawl::new(&["doc.txt"], false);
    let url = crawl.next_url().unwrap();
    crawl.merge(&url, &document());
    assert_eq!(crawl.next_url(), None);
    assert_eq!(crawl.into_cache().len(), 3);
}

#[test]
fn crawl_visits_a_document_again_that_is_named_again() {
    let mut crawl = Crawl::new(&["https://h/doc.txt"], true);
    let cycle = Layers { layers: vec![leaf("a", "a"), group("g", "./doc.txt", vec![])] };
    let url = crawl.next_url().unwrap();
    crawl.merge(&url, &cycle);
    let url = crawl.next_url().unwrap();
    assert_eq!(url, "https://h/./doc.txt");
    crawl.merge(&url, &cycle);
    assert_eq!(crawl.next_url(), Some("https://h/././doc.txt".to_string()));
    assert_eq!(crawl.into_cache().len(), 1);
}

#[test]
fn relative_source_is_resolved_against_what_stands_before_the_last_slash() {
    let urls = ["https://h/dir/doc.txt", "a/b", "/", "a/", "//", "https://maps.gsi.go.jp/layers_txt/layers0.txt"];
    let sources = ["./more.txt", "./", "./a/b.txt", "./../c"];
    for url in urls {
        for src in sources {
            let base = url.rsplitn(2, '/').collect::<Vec<_>>()[1];
            assert_eq!(resolve_src_url(url, src), format!("{}/{}", base, src));
        }
    }
}

#[test]
fn crawl_visits_seeds_before_the_sources_that_the_first_names() {
    let mut crawl = Crawl::new(&["a", "https://h/b.txt"], true);
    let first = Layers {
        layers: vec![
            group("g", "https://h/c1.txt", vec![group("h", "https://h/c2.txt", vec![])]),
            leaf("l", "l"),
        ],
    };
    let empty = Layers { layers: vec![] };
    let mut log = Vec::new();
    while let Some(url) = crawl.next_url() {
        crawl.merge(&url, if log.is_empty() { &first } else { &empty });
        log.push(url);
    }
    assert_eq!(log, vec!["a", "https://h/b.txt", "https://h/c1.txt", "https://h/c2.txt"]);
    assert_eq!(crawl.into_cache().len(), 1);
}

#[test]
fn crawl_merges_the_document_of_a_source_without_slash() {
    let mut crawl = Crawl::new(&["https://h/a.txt"], true);
    let url = crawl.next_url().unwrap();
    crawl.merge(&url, &Layers { layers: vec![group("g", "x", vec![])] });
    let url = crawl.next_url().unwrap();
    assert_eq!(url, "x");
    crawl.merge(&url, &Layers { layers: vec![] });
    assert_eq!(crawl.next_url(), None);
    assert!(crawl.into_cache().is_empty());
}

#[test]
fn crawl_keeps_a_relative_source_of_a_document_without_directory() {
    let mut crawl = Crawl::new(&["x"], true);
    let url = crawl.next_url().unwrap();
    crawl.merge(&url, &Layers { layers: vec![leaf("a", "a"), group("g", "./y", vec![])] });
    assert_eq!(crawl.next_url(), Some("./y".to_string()));
    assert_eq!(crawl.next_url(), None);
    assert_eq!(crawl.into_cache().len(), 1);
}

#[test]
fn crawl_visits_as_many_documents_as_seeds_and_sources() {
    let mut crawl = Crawl::new(&["https://h/a.txt", "https://h/b.txt"], true);
    let with_two = Layers {
        layers: vec![group("g", "./c.txt", vec![]), group("h", "./c.txt", vec![])],
    };
    let empty = Layers { layers: vec![] };
    let mut visits = 0;
    while let Some(url) = crawl.next_url() {
        crawl.merge(&url, if visits < 2 { &with_two } else { &empty });
        visits += 1;
    }
    assert_eq!(visits, 2 + 4);
}

#[test]
fn crawl_step_merges_a_fetched_document_and_goes_on() {
    let mut crawl = Crawl::new(&["https://h/dir/doc.txt", "https://h/dir/last.txt"], true);
    let url = crawl.next_url().unwrap();
    let mut crawl = crawl.step(&url, Ok(document())).unwrap();
    assert_eq!(crawl.next_url(), Some("https://h/dir/last.txt".to_string()));
    assert_eq!(crawl.next_url(), Some("https://h/dir/./more.txt".to_string()));
    assert_eq!(crawl.next_url(), Some("https://other/x.txt".to_string()));
    assert_eq!(crawl.next_url(), None);
    let cache = crawl.into_cache();
    assert_eq!(cache.len(), 3);
    assert_eq!(cache.get("a").unwrap().title, "second a");
}

#[test]
fn crawl_step_ends_with_the_error_of_a_failed_fetch() {
    let mut crawl = Crawl::new(&["https://h/a.txt", "https://h/b.txt"], true);
    let url = crawl.next_url().unwrap();
    let mut crawl = crawl.step(&url, Ok(document())).unwrap();
    let url = crawl.next_url().unwrap();
    assert!(matches!(
        crawl.step(&url, Err(GsiError::HttpResponseIsNotSucceeded(404))),
        Err(GsiError::HttpResponseIsNotSucceeded(404))
    ));
}

#[test]
fn crawl_step_hands_on_each_kind_of_error() {
    let errors = [
        GsiError::HttpRequestIsFailed,
        GsiError::HttpResponseCouldNotGetBodyString,
        GsiError::SerdeJsonError("expected value".to_string()),
    ];
    for e in errors {
        let text = format!("{:?}", e);
        let mut crawl = Crawl::new(&["a"], false);
        let url = crawl.next_url().unwrap();
        match crawl.step(&url, Err(e)) {
            Err(handed) => assert_eq!(format!("{:?}", handed), text),
            Ok(_) => panic!("the crawl went on"),
        }
    }
}
