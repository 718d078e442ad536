use gsi::layers::{
    default_subdomains, default_true, first_layers_urls, is_default_subdomains, is_true,
    layers_txt_url, ext_of_extension, Layer, LayerGroup, LayerVariant, Layers,
    LeafletStringOrStringArray, PATH_FIRST_LAYERS, URL_ROOT_DIR_GITHUB, URL_ROOT_DIR_GSI,
};

fn leaf(id: &str, url: &str) -> Layer {
    Layer {
        ty: "Layer".to_string(),
        id: id.to_string(),
        title: format!("title of {}", id),
        url: url.to_string(),
        subdomains: default_subdomains(),
        attribution: String::new(),
        cocotile: default_true(),
        min_zoom: Some(2),
        max_zoom: None,
        max_native_zoom: Some(18),
        icon_url: format!("icon of {}", id),
        legend_url: format!("legend of {}", id),
        style_url: String::new(),
        error_tile_url: String::new(),
        bounds: Some([[20.5f64.to_bits(), 122.0f64.to_bits()], [46.0f64.to_bits(), 154.0f64.to_bits()]]),
        html: format!("html of {}", id),
    }
}

fn group(title: &str, src: &str, entries: Vec<LayerVariant>) -> LayerGroup {
    LayerGroup {
        ty: "LayerGroup".to_string(),
        id: String::new(),
        title: title.to_string(),
        toggleall: false,
        entries,
        src: src.to_string(),
        icon_url: format!("icon of {}", title),
        legend_url: format!("legend of {}", title),
        html: format!("html of {}", title),
    }
}

#[test]
fn flattening_is_pre_order() {
    let a = LayerVariant::Layer(leaf("a", "https://h/{z}/{x}/{y}.png"));
    let b = LayerVariant::Layer(leaf("b", "https://h/b/{z}/{x}/{y}.png"));
    let inner = LayerVariant::LayerGroup(group("inner", "", vec![b.clone()]));
    let outer = LayerVariant::LayerGroup(group("outer", "", vec![a.clone(), inner.clone()]));
    let flat = outer.iter();
    assert_eq!(flat.len(), 4);
    assert_eq!(*flat[0], outer);
    assert_eq!(*flat[1], a);
    assert_eq!(*flat[2], inner);
    assert_eq!(*flat[3], b);
}

#[test]
fn flattening_a_leaf_is_the_leaf() {
    let a = LayerVariant::Layer(leaf("a", "u"));
    assert_eq!(a.iter(), vec![&a]);
}

#[test]
fn flattening_an_empty_group_is_the_group() {
    let g = LayerVariant::LayerGroup(group("g", "", vec![]));
    assert_eq!(g.iter(), vec![&g]);
}

#[test]
fn flattening_keeps_the_order_of_entries_at_every_depth() {
    let leaves: Vec<LayerVariant> =
        ["a", "b", "c", "d", "e"].iter().map(|id| LayerVariant::Layer(leaf(id, "u"))).collect();
    let g1 = LayerVariant::LayerGroup(group("g1", "", vec![leaves[1].clone(), leaves[2].clone()]));
    let g2 = LayerVariant::LayerGroup(group("g2", "", vec![g1.clone(), leaves[3].clone()]));
    let layers = Layers { layers: vec![leaves[0].clone(), g2.clone(), leaves[4].clone()] };
    let titles: Vec<&str> = layers.iter().iter().map(|e| e.title()).collect();
    assert_eq!(
        titles,
        vec!["title of a", "g2", "g1", "title of b", "title of c", "title of d", "title of e"]
    );
}

#[test]
fn flattening_a_document_without_entries_is_empty() {
    assert!(Layers { layers: vec![] }.iter().is_empty());
}

#[test]
fn variant_tells_leaf_from_group() {
    let a = LayerVariant::Layer(leaf("a", "u"));
    let g = LayerVariant::LayerGroup(group("g", "./x.txt", vec![a.clone()]));
    assert!(a.is_layer());
    assert!(!a.is_layer_group());
    assert!(!g.is_layer());
    assert!(g.is_layer_group());
    assert_eq!(a.as_layer(), Some(&leaf("a", "u")));
    assert_eq!(a.as_layer_group(), None);
    assert_eq!(g.as_layer(), None);
    assert_eq!(g.as_layer_group().unwrap().src, "./x.txt");
    assert_eq!(g.as_layer_group().unwrap().entries.len(), 1);
}

#[test]
fn variant_reads_the_fields_that_both_kinds_have() {
    let a = LayerVariant::Layer(leaf("a", "u"));
    let g = LayerVariant::LayerGroup(group("g", "", vec![]));
    assert_eq!(a.ty(), "Layer");
    assert_eq!(g.ty(), "LayerGroup");
    assert_eq!(a.title(), "title of a");
    assert_eq!(g.title(), "g");
    assert_eq!(a.icon_url(), "icon of a");
    assert_eq!(g.icon_url(), "icon of g");
    assert_eq!(a.legend_url(), "legend of a");
    assert_eq!(g.legend_url(), "legend of g");
    assert_eq!(a.html(), "html of a");
    assert_eq!(g.html(), "html of g");
}

#[test]
fn clone_copies_every_field_at_every_depth() {
    let mut a = leaf("a", "u");
    a.subdomains = LeafletStringOrStringArray::StringArray(vec!["x".to_string(), "y".to_string()]);
    let inner = LayerVariant::LayerGroup(group("inner", "./s.txt", vec![LayerVariant::Layer(a)]));
    let outer = LayerVariant::LayerGroup(group("outer", "", vec![inner, LayerVariant::Layer(leaf("b", "v"))]));
    assert_eq!(outer.clone(), outer);
}

#[test]
fn ext_is_the_extension_of_the_url_with_its_dot() {
    assert_eq!(leaf("dem", "https://maps.gsi.go.jp/xyz/dem/{z}/{x}/{y}.txt").ext(), ".txt");
    assert_eq!(
        leaf("std", "https://maps.gsi.go.jp/xyz/std/{z}/{x}/{y}.png?_=20200803a").ext(),
        ".png?_=20200803a"
    );
    assert_eq!(leaf("none", "https://example.com/{x}/{y}/{z}").ext(), "");
}

#[test]
fn ext_of_extension_puts_the_dot() {
    assert_eq!(ext_of_extension(Some("png".to_string())), ".png");
    assert_eq!(ext_of_extension(Some(String::new())), ".");
    assert_eq!(ext_of_extension(None), "");
}

#[test]
fn defaults_of_a_leaf() {
    assert!(default_true());
    assert_eq!(default_subdomains(), LeafletStringOrStringArray::String("abc".to_string()));
    assert!(is_default_subdomains(&default_subdomains()));
    assert!(!is_default_subdomains(&LeafletStringOrStringArray::String("ab".to_string())));
    assert!(!is_default_subdomains(&LeafletStringOrStringArray::String("abcd".to_string())));
    assert!(!is_default_subdomains(&LeafletStringOrStringArray::String(String::new())));
    assert!(!is_default_subdomains(&LeafletStringOrStringArray::StringArray(vec![
        "abc".to_string()
    ])));
    assert!(is_true(&true));
    assert!(!is_true(&false));
}

#[test]
fn layers_txt_url_joins_directory_and_path() {
    assert_eq!(
        layers_txt_url(URL_ROOT_DIR_GSI, "layers2.txt"),
        "https://maps.gsi.go.jp/layers_txt/layers2.txt"
    );
    assert_eq!(layers_txt_url("", ""), "");
}

#[test]
fn first_layers_urls_are_the_eight_documents_in_order() {
    let urls = first_layers_urls(URL_ROOT_DIR_GITHUB);
    assert_eq!(urls.len(), 8);
    for (i, url) in urls.iter().enumerate() {
        assert_eq!(
            *url,
            format!(
                "https://raw.githubusercontent.com/gsi-cyberjapan/gsimaps/gh-pages/layers_txt/layers{}.txt",
                i
            )
        );
        assert_eq!(*url, format!("{}{}", URL_ROOT_DIR_GITHUB, PATH_FIRST_LAYERS[i]));
    }
}

#[test]
fn ext_is_what_follows_the_last_dot_of_the_file_name() {
    let cases = [
        ("https://h/a.b/c", ""),
        ("https://h/a.b/c.d.e", ".e"),
        ("https://h/dir/.hidden", ""),
        ("https://h/dir/name.", "."),
        ("https://h/dir/name.png/", ".png"),
        ("https://h/{z}/{x}/{y}.pbf?a=1.2", ".2"),
        ("", ""),
    ];
    for (url, ext) in cases {
        assert_eq!(leaf("a", url).ext(), ext, "{:?}", url);
    }
}
