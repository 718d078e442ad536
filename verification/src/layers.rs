//! The layer catalog: leaf layers, groups of entries, and the documents that
//! list them.

use crate::text::same_text;
use vstd::prelude::*;
use vstd::string::StringExecFns;

verus! {

/// Geographic bounds `[[south, west], [north, east]]`. Each coordinate is kept
/// as the bit pattern of its IEEE 754 double, so that it survives unchanged.
pub type LeafletLatLngBounds = [[u64; 2]; 2];

/// A single subdomain string, or a list of them.
#[derive(Debug, PartialEq, Eq)]
pub enum LeafletStringOrStringArray {
    String(String),
    StringArray(Vec<String>),
}

/// What a [`LeafletStringOrStringArray`] holds.
pub enum SubdomainsView {
    String(Seq<char>),
    StringArray(Seq<Seq<char>>),
}

impl View for LeafletStringOrStringArray {
    type V = SubdomainsView;

    open spec fn view(&self) -> SubdomainsView {
        match self {
            LeafletStringOrStringArray::String(s) => SubdomainsView::String(s@),
            LeafletStringOrStringArray::StringArray(a) => SubdomainsView::StringArray(
                a.deep_view(),
            ),
        }
    }
}

/// A leaf of the catalog: one addressable map layer.
#[derive(Debug, PartialEq, Eq)]
pub struct Layer {
    pub ty: String,
    pub id: String,
    pub title: String,
    pub url: String,
    pub subdomains: LeafletStringOrStringArray,
    pub attribution: String,
    pub cocotile: bool,
    pub min_zoom: Option<u8>,
    pub max_zoom: Option<u8>,
    pub max_native_zoom: Option<u8>,
    pub icon_url: String,
    pub legend_url: String,
    pub style_url: String,
    pub error_tile_url: String,
    pub bounds: Option<LeafletLatLngBounds>,
    pub html: String,
}

/// What a [`Layer`] holds.
pub struct LayerView {
    pub ty: Seq<char>,
    pub id: Seq<char>,
    pub title: Seq<char>,
    pub url: Seq<char>,
    pub subdomains: SubdomainsView,
    pub attribution: Seq<char>,
    pub cocotile: bool,
    pub min_zoom: Option<u8>,
    pub max_zoom: Option<u8>,
    pub max_native_zoom: Option<u8>,
    pub icon_url: Seq<char>,
    pub legend_url: Seq<char>,
    pub style_url: Seq<char>,
    pub error_tile_url: Seq<char>,
    pub bounds: Option<LeafletLatLngBounds>,
    pub html: Seq<char>,
}

impl View for Layer {
    type V = LayerView;

    open spec fn view(&self) -> LayerView {
        LayerView {
            ty: self.ty@,
            id: self.id@,
            title: self.title@,
            url: self.url@,
            subdomains: self.subdomains@,
            attribution: self.attribution@,
            cocotile: self.cocotile,
            min_zoom: self.min_zoom,
            max_zoom: self.max_zoom,
            max_native_zoom: self.max_native_zoom,
            icon_url: self.icon_url@,
            legend_url: self.legend_url@,
            style_url: self.style_url@,
            error_tile_url: self.error_tile_url@,
            bounds: self.bounds,
            html: self.html@,
        }
    }
}

/// A named collection of entries, which another document may extend.
#[derive(Debug, PartialEq, Eq)]
pub struct LayerGroup {
    pub ty: String,
    pub id: String,
    pub title: String,
    pub toggleall: bool,
    pub entries: Vec<LayerVariant>,
    pub src: String,
    pub icon_url: String,
    pub legend_url: String,
    pub html: String,
}

/// An entry of the catalog: a leaf layer or a group.
#[derive(Debug, PartialEq, Eq)]
pub enum LayerVariant {
    Layer(Layer),
    LayerGroup(LayerGroup),
}

/// What a [`LayerGroup`] holds.
pub struct LayerGroupView {
    pub ty: Seq<char>,
    pub id: Seq<char>,
    pub title: Seq<char>,
    pub toggleall: bool,
    pub entries: Seq<LayerVariantView>,
    pub src: Seq<char>,
    pub icon_url: Seq<char>,
    pub legend_url: Seq<char>,
    pub html: Seq<char>,
}

/// What a [`LayerVariant`] holds.
pub enum LayerVariantView {
    Layer(LayerView),
    LayerGroup(LayerGroupView),
}

/// The view of a group, its entries included.
pub open spec fn group_view(g: LayerGroup) -> LayerGroupView
    decreases g, 1nat,
{
    LayerGroupView {
        ty: g.ty@,
        id: g.id@,
        title: g.title@,
        toggleall: g.toggleall,
        entries: entries_view(g.entries, g.entries@.len()),
        src: g.src@,
        icon_url: g.icon_url@,
        legend_url: g.legend_url@,
        html: g.html@,
    }
}

/// The views of the first `n` of `entries`, in order.
pub open spec fn entries_view(entries: Vec<LayerVariant>, n: nat) -> Seq<LayerVariantView>
    decreases entries, n,
{
    if 0 < n <= entries@.len() {
        entries_view(entries, (n - 1) as nat).push(variant_view(entries@[n - 1]))
    } else {
        Seq::empty()
    }
}

/// The view of an entry.
pub open spec fn variant_view(v: LayerVariant) -> LayerVariantView
    decreases v, 0nat,
{
    match v {
        LayerVariant::Layer(l) => LayerVariantView::Layer(l@),
        LayerVariant::LayerGroup(g) => LayerVariantView::LayerGroup(group_view(g)),
    }
}

impl View for LayerGroup {
    type V = LayerGroupView;

    open spec fn view(&self) -> LayerGroupView {
        group_view(*self)
    }
}

impl View for LayerVariant {
    type V = LayerVariantView;

    open spec fn view(&self) -> LayerVariantView {
        variant_view(*self)
    }
}

/// The body of one catalog document: its top-level entries, in order.
#[derive(Debug, PartialEq, Eq)]
pub struct Layers {
    pub layers: Vec<LayerVariant>,
}

impl View for Layers {
    type V = Seq<LayerVariantView>;

    open spec fn view(&self) -> Seq<LayerVariantView> {
        entries_view(self.layers, self.layers@.len())
    }
}

/// A copy of every string of `strings`, in order.
fn clone_strings(strings: &Vec<String>) -> (r: Vec<String>)
    ensures
        r.deep_view() == strings.deep_view(),
{
    let mut r: Vec<String> = Vec::new();
    let mut i: usize = 0;
    while i < strings.len()
        invariant
            i <= strings.len(),
            r@.len() == i,
            forall|j: int| 0 <= j < i ==> r@[j]@ == strings@[j]@,
        decreases strings.len() - i,
    {
        r.push(strings[i].clone());
        i += 1;
    }
    assert(r.deep_view() =~= strings.deep_view());
    r
}

impl Clone for LeafletStringOrStringArray {
    fn clone(&self) -> (r: Self)
        ensures
            r@ == self@,
    {
        match self {
            LeafletStringOrStringArray::String(s) => LeafletStringOrStringArray::String(s.clone()),
            LeafletStringOrStringArray::StringArray(a) => LeafletStringOrStringArray::StringArray(
                clone_strings(a),
            ),
        }
    }
}

impl Clone for Layer {
    fn clone(&self) -> (r: Self)
        ensures
            r@ == self@,
    {
        Layer {
            ty: self.ty.clone(),
            id: self.id.clone(),
            title: self.title.clone(),
            url: self.url.clone(),
            subdomains: self.subdomains.clone(),
            attribution: self.attribution.clone(),
            cocotile: self.cocotile,
            min_zoom: self.min_zoom,
            max_zoom: self.max_zoom,
            max_native_zoom: self.max_native_zoom,
            icon_url: self.icon_url.clone(),
            legend_url: self.legend_url.clone(),
            style_url: self.style_url.clone(),
            error_tile_url: self.error_tile_url.clone(),
            bounds: self.bounds,
            html: self.html.clone(),
        }
    }
}

/// A copy of a group, its entries included.
fn clone_group(g: &LayerGroup) -> (r: LayerGroup)
    ensures
        r@ == g@,
    decreases *g, 1nat,
{
    let mut entries: Vec<LayerVariant> = Vec::new();
    let mut i: usize = 0;
    while i < g.entries.len()
        invariant
            i <= g.entries.len(),
            entries@.len() == i,
            entries_view(entries, i as nat) == entries_view(g.entries, i as nat),
        decreases g.entries.len() - i,
    {
        let ghost before = entries;
        let e = clone_variant(&g.entries[i]);
        entries.push(e);
        proof {
            lemma_entries_view_prefix(before, entries, i as nat);
        }
        i += 1;
    }
    LayerGroup {
        ty: g.ty.clone(),
        id: g.id.clone(),
        title: g.title.clone(),
        toggleall: g.toggleall,
        entries,
        src: g.src.clone(),
        icon_url: g.icon_url.clone(),
        legend_url: g.legend_url.clone(),
        html: g.html.clone(),
    }
}

/// A copy of an entry.
fn clone_variant(v: &LayerVariant) -> (r: LayerVariant)
    ensures
        r@ == v@,
    decreases *v, 0nat,
{
    match v {
        LayerVariant::Layer(l) => LayerVariant::Layer(l.clone()),
        LayerVariant::LayerGroup(g) => LayerVariant::LayerGroup(clone_group(g)),
    }
}

/// The views of the first `n` entries depend on those entries alone.
pub proof fn lemma_entries_view_prefix(a: Vec<LayerVariant>, b: Vec<LayerVariant>, n: nat)
    requires
        n <= a@.len(),
        n <= b@.len(),
        forall|j: int| 0 <= j < n ==> a@[j] == b@[j],
    ensures
        entries_view(a, n) == entries_view(b, n),
    decreases n,
{
    if n > 0 {
        lemma_entries_view_prefix(a, b, (n - 1) as nat);
    }
}

impl Clone for LayerGroup {
    fn clone(&self) -> (r: Self)
        ensures
            r@ == self@,
    {
        clone_group(self)
    }
}

impl Clone for LayerVariant {
    fn clone(&self) -> (r: Self)
        ensures
            r@ == self@,
    {
        clone_variant(self)
    }
}

/// An entry and everything below it, in pre-order: the entry itself, then the
/// flattening of each of its children, in their order.
pub open spec fn flatten(v: LayerVariantView) -> Seq<LayerVariantView>
    decreases v, 0nat,
{
    match v {
        LayerVariantView::Layer(_) => seq![v],
        LayerVariantView::LayerGroup(g) => seq![v] + flatten_entries(g.entries, g.entries.len()),
    }
}

/// The flattenings of the first `n` of `entries`, one after the other.
pub open spec fn flatten_entries(entries: Seq<LayerVariantView>, n: nat) -> Seq<LayerVariantView>
    decreases entries, n,
{
    if 0 < n <= entries.len() {
        flatten_entries(entries, (n - 1) as nat) + flatten(entries[n - 1])
    } else {
        Seq::empty()
    }
}

/// The flattenings of all of `entries`, one after the other.
pub open spec fn flatten_all(entries: Seq<LayerVariantView>) -> Seq<LayerVariantView> {
    flatten_entries(entries, entries.len())
}

/// Flattening is pre-order: an entry comes first in its own flattening, a
/// leaf alone, a group followed by the flattenings of its entries in the
/// order in which it holds them.
pub proof fn lemma_flatten_preorder(v: LayerVariantView)
    ensures
        flatten(v).len() >= 1,
        flatten(v)[0] == v,
        v is Layer ==> flatten(v) == seq![v],
        v matches LayerVariantView::LayerGroup(g) ==> flatten(v) == seq![v] + flatten_all(
            g.entries,
        ),
{
}

/// The flattening of a list with one more entry is the flattening of the list
/// followed by that of the entry.
pub proof fn lemma_flatten_all_push(entries: Seq<LayerVariantView>, entry: LayerVariantView)
    ensures
        flatten_all(entries.push(entry)) == flatten_all(entries) + flatten(entry),
{
    let more = entries.push(entry);
    lemma_flatten_entries_prefix(entries, more, entries.len());
}

/// The flattenings of the first `n` entries depend on those entries alone.
pub proof fn lemma_flatten_entries_prefix(
    a: Seq<LayerVariantView>,
    b: Seq<LayerVariantView>,
    n: nat,
)
    requires
        n <= a.len(),
        n <= b.len(),
        forall|j: int| 0 <= j < n ==> a[j] == b[j],
    ensures
        flatten_entries(a, n) == flatten_entries(b, n),
    decreases n,
{
    if n > 0 {
        lemma_flatten_entries_prefix(a, b, (n - 1) as nat);
    }
}

/// What a sequence of borrowed entries holds.
pub open spec fn refs_view(refs: Seq<&LayerVariant>) -> Seq<LayerVariantView> {
    refs.map_values(|e: &LayerVariant| e@)
}

/// `entries_view` lists the views of the entries one by one.
pub proof fn lemma_entries_view_index(entries: Vec<LayerVariant>, n: nat)
    requires
        n <= entries@.len(),
    ensures
        entries_view(entries, n).len() == n,
        forall|j: int| 0 <= j < n ==> #[trigger] entries_view(entries, n)[j] == entries@[j]@,
    decreases n,
{
    if n > 0 {
        lemma_entries_view_index(entries, (n - 1) as nat);
    }
}

/// Appends the flattening of `v` to `out`.
fn collect_flat<'a>(v: &'a LayerVariant, out: &mut Vec<&'a LayerVariant>)
    ensures
        refs_view(final(out)@) == refs_view(old(out)@) + flatten(v@),
    decreases *v,
{
    out.push(v);
    assert(refs_view(out@) =~= refs_view(old(out)@) + seq![v@]);
    match v {
        LayerVariant::Layer(_) => {},
        LayerVariant::LayerGroup(g) => {
            proof {
                lemma_entries_view_index(g.entries, g.entries@.len());
            }
            let mut i: usize = 0;
            while i < g.entries.len()
                invariant
                    i <= g.entries.len(),
                    g@.entries.len() == g.entries.len(),
                    forall|j: int| 0 <= j < g.entries.len() ==> g@.entries[j] == g.entries@[j]@,
                    *v == LayerVariant::LayerGroup(*g),
                    refs_view(out@) == refs_view(old(out)@) + seq![v@] + flatten_entries(
                        g@.entries,
                        i as nat,
                    ),
                decreases g.entries.len() - i,
            {
                collect_flat(&g.entries[i], out);
                i += 1;
            }
        },
    }
}

impl LayerVariant {
    /// The entry and everything below it, in pre-order.
    pub fn iter(&self) -> (r: Vec<&LayerVariant>)
        ensures
            refs_view(r@) == flatten(self@),
    {
        let mut r: Vec<&LayerVariant> = Vec::new();
        assert(refs_view(r@) =~= Seq::<LayerVariantView>::empty());
        collect_flat(self, &mut r);
        r
    }
}

impl Layers {
    /// Every entry of the document, in pre-order: the flattening of each
    /// top-level entry, in their order.
    pub fn iter(&self) -> (r: Vec<&LayerVariant>)
        ensures
            refs_view(r@) == flatten_all(self@),
    {
        let mut r: Vec<&LayerVariant> = Vec::new();
        proof {
            lemma_entries_view_index(self.layers, self.layers@.len());
        }
        assert(refs_view(r@) =~= Seq::<LayerVariantView>::empty());
        let mut i: usize = 0;
        while i < self.layers.len()
            invariant
                i <= self.layers.len(),
                self@.len() == self.layers.len(),
                forall|j: int| 0 <= j < self.layers.len() ==> self@[j] == self.layers@[j]@,
                refs_view(r@) == flatten_entries(self@, i as nat),
            decreases self.layers.len() - i,
        {
            collect_flat(&self.layers[i], &mut r);
            i += 1;
        }
        r
    }
}

/// The directory of the catalog documents on GitHub.
pub const URL_ROOT_DIR_GITHUB: &'static str =
    "https://raw.githubusercontent.com/gsi-cyberjapan/gsimaps/gh-pages/layers_txt/";

/// The directory of the catalog documents on the map service.
pub const URL_ROOT_DIR_GSI: &'static str = "https://maps.gsi.go.jp/layers_txt/";

/// The well-known top-level catalog documents, in their order.
pub const PATH_FIRST_LAYERS: [&'static str; 8] = [
    "layers0.txt",
    "layers1.txt",
    "layers2.txt",
    "layers3.txt",
    "layers4.txt",
    "layers5.txt",
    "layers6.txt",
    "layers7.txt",
];

/// The flag that a leaf has where its document gives none.
pub fn default_true() -> (r: bool)
    ensures
        r,
{
    true
}

/// The subdomains that a leaf has where its document gives none: `abc`.
pub fn default_subdomains() -> (r: LeafletStringOrStringArray)
    ensures
        r@ == SubdomainsView::String(seq!['a', 'b', 'c']),
{
    proof {
        reveal_strlit("abc");
    }
    let s = "abc".to_owned();
    assert(s@ =~= seq!['a', 'b', 'c']);
    LeafletStringOrStringArray::String(s)
}

/// Whether `a` is the subdomains that a leaf has where its document gives none.
pub fn is_default_subdomains(a: &LeafletStringOrStringArray) -> (r: bool)
    ensures
        r == (a@ == SubdomainsView::String(seq!['a', 'b', 'c'])),
{
    proof {
        reveal_strlit("abc");
    }
    assert("abc"@ =~= seq!['a', 'b', 'c']);
    match a {
        LeafletStringOrStringArray::String(s) => same_text(s.as_str(), "abc"),
        LeafletStringOrStringArray::StringArray(_) => false,
    }
}

/// Whether the flag is set.
pub fn is_true(a: &bool) -> (r: bool)
    ensures
        r == *a,
{
    *a
}

/// The extension of the path written as `path`, without its dot, as
/// `std::path::Path::extension` gives it.
pub uninterp spec fn path_extension(path: Seq<char>) -> Option<Seq<char>>;

/// `std::path::Path::extension` of the path written as `path`: the part of
/// the file name after its last dot, if the path has a file name and that has
/// such a part.
#[verifier::external_body]
fn extension(path: &str) -> (r: Option<String>)
    ensures
        match r {
            Some(e) => path_extension(path@) == Some(e@),
            None => path_extension(path@) is None,
        },
{
    match std::path::Path::new(path).extension() {
        Some(e) => Some(e.to_string_lossy().into_owned()),
        None => None,
    }
}

/// An extension with a dot before it, or nothing where there is no extension.
pub open spec fn dotted(extension: Option<Seq<char>>) -> Seq<char> {
    match extension {
        Some(e) => seq!['.'] + e,
        None => Seq::empty(),
    }
}

/// The text that stands for `{ext}` in a tile's URL, from the extension of
/// the URL's path: the extension with a dot before it, or the empty text where
/// the path has no extension.
pub fn ext_of_extension(extension: Option<String>) -> (r: String)
    ensures
        r@ == dotted(
            match extension {
                Some(e) => Some(e@),
                None => None,
            },
        ),
{
    let mut r = String::new();
    match extension {
        Some(e) => {
            r.push('.');
            r.append(e.as_str());
            assert(r@ =~= seq!['.'] + e@);
        },
        None => {},
    }
    r
}

impl Layer {
    /// The text that stands for `{ext}` in the URLs of this layer's tiles: the
    /// extension of the path of `url`, with its dot. What follows the last dot
    /// of the file name belongs to it, a query too.
    pub fn ext(&self) -> (r: String)
        ensures
            r@ == dotted(path_extension(self@.url)),
    {
        ext_of_extension(extension(self.url.as_str()))
    }
}

impl LayerVariantView {
    /// The type tag of the entry.
    pub open spec fn ty(self) -> Seq<char> {
        match self {
            LayerVariantView::Layer(l) => l.ty,
            LayerVariantView::LayerGroup(g) => g.ty,
        }
    }

    /// The title of the entry.
    pub open spec fn title(self) -> Seq<char> {
        match self {
            LayerVariantView::Layer(l) => l.title,
            LayerVariantView::LayerGroup(g) => g.title,
        }
    }

    /// The URL of the entry's icon.
    pub open spec fn icon_url(self) -> Seq<char> {
        match self {
            LayerVariantView::Layer(l) => l.icon_url,
            LayerVariantView::LayerGroup(g) => g.icon_url,
        }
    }

    /// The URL of the entry's legend.
    pub open spec fn legend_url(self) -> Seq<char> {
        match self {
            LayerVariantView::Layer(l) => l.legend_url,
            LayerVariantView::LayerGroup(g) => g.legend_url,
        }
    }

    /// The HTML blurb of the entry.
    pub open spec fn html(self) -> Seq<char> {
        match self {
            LayerVariantView::Layer(l) => l.html,
            LayerVariantView::LayerGroup(g) => g.html,
        }
    }
}

impl LayerVariant {
    /// Whether the entry is a leaf.
    pub fn is_layer(&self) -> (r: bool)
        ensures
            r == (self is Layer),
            r == (self@ is Layer),
    {
        match self {
            LayerVariant::Layer(_) => true,
            _ => false,
        }
    }

    /// Whether the entry is a group.
    pub fn is_layer_group(&self) -> (r: bool)
        ensures
            r == (self is LayerGroup),
            r == (self@ is LayerGroup),
    {
        match self {
            LayerVariant::LayerGroup(_) => true,
            _ => false,
        }
    }

    /// The leaf that the entry is, if it is one.
    pub fn as_layer(&self) -> (r: Option<&Layer>)
        ensures
            match *self {
                LayerVariant::Layer(l) => r == Some(&l),
                LayerVariant::LayerGroup(_) => r is None,
            },
    {
        match self {
            LayerVariant::Layer(l) => Some(l),
            _ => None,
        }
    }

    /// The group that the entry is, if it is one.
    pub fn as_layer_group(&self) -> (r: Option<&LayerGroup>)
        ensures
            match *self {
                LayerVariant::LayerGroup(g) => r == Some(&g),
                LayerVariant::Layer(_) => r is None,
            },
    {
        match self {
            LayerVariant::LayerGroup(g) => Some(g),
            _ => None,
        }
    }

    /// The type tag of the entry.
    pub fn ty(&self) -> (r: &str)
        ensures
            r@ == self@.ty(),
    {
        match self {
            LayerVariant::Layer(l) => l.ty.as_str(),
            LayerVariant::LayerGroup(g) => g.ty.as_str(),
        }
    }

    /// The title of the entry.
    pub fn title(&self) -> (r: &str)
        ensures
            r@ == self@.title(),
    {
        match self {
            LayerVariant::Layer(l) => l.title.as_str(),
            LayerVariant::LayerGroup(g) => g.title.as_str(),
        }
    }

    /// The URL of the entry's icon.
    pub fn icon_url(&self) -> (r: &str)
        ensures
            r@ == self@.icon_url(),
    {
        match self {
            LayerVariant::Layer(l) => l.icon_url.as_str(),
            LayerVariant::LayerGroup(g) => g.icon_url.as_str(),
        }
    }

    /// The URL of the entry's legend.
    pub fn legend_url(&self) -> (r: &str)
        ensures
            r@ == self@.legend_url(),
    {
        match self {
            LayerVariant::Layer(l) => l.legend_url.as_str(),
            LayerVariant::LayerGroup(g) => g.legend_url.as_str(),
        }
    }

    /// The HTML blurb of the entry.
    pub fn html(&self) -> (r: &str)
        ensures
            r@ == self@.html(),
    {
        match self {
            LayerVariant::Layer(l) => l.html.as_str(),
            LayerVariant::LayerGroup(g) => g.html.as_str(),
        }
    }
}

/// The URL of the catalog document `path` below `base_url`: the one directly
/// followed by the other.
pub fn layers_txt_url(base_url: &str, path: &str) -> (url: String)
    ensures
        url@ == base_url@ + path@,
{
    let mut url = base_url.to_owned();
    url.append(path);
    url
}

/// The URLs of the well-known top-level catalog documents below `base_url`,
/// in their order.
pub fn first_layers_urls(base_url: &str) -> (urls: Vec<String>)
    ensures
        urls@.len() == PATH_FIRST_LAYERS@.len(),
        forall|i: int|
            0 <= i < urls@.len() ==> (#[trigger] urls@[i])@ == base_url@ + PATH_FIRST_LAYERS@[i]@,
{
    let mut urls: Vec<String> = Vec::new();
    let mut i: usize = 0;
    while i < PATH_FIRST_LAYERS.len()
        invariant
            i <= PATH_FIRST_LAYERS@.len(),
            urls@.len() == i,
            forall|j: int|
                0 <= j < i ==> (#[trigger] urls@[j])@ == base_url@ + PATH_FIRST_LAYERS@[j]@,
        decreases PATH_FIRST_LAYERS@.len() - i,
    {
        urls.push(layers_txt_url(base_url, PATH_FIRST_LAYERS[i]));
        i += 1;
    }
    urls
}

} // verus!
