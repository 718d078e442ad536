//! Merging catalog documents into one index, and the crawl that follows the
//! cross-references of groups from document to document.
//!
//! Fetching a document is left to the caller. [`Crawl`] holds what the crawl
//! knows between two fetches: the index built so far and the URLs still to
//! visit, first in, first out. The caller takes the next URL with
//! [`Crawl::next_url`], fetches it and hands what the fetch came to to
//! [`Crawl::step`]; the first error ends the crawl.

use crate::cache::CachedLayers;
use crate::error::GsiError;
use crate::layers::{
    flatten_all, refs_view, LayerGroup, LayerGroupView, LayerVariant, LayerVariantView,
    LayerView, Layers,
};
use crate::text::{append_chars, chars_of, matches_at, string_from};
use std::collections::VecDeque;
use vstd::prelude::*;

verus! {

/// The index after one entry of a flattened document: a leaf is stored under
/// its id, in place of what was there; a group changes nothing.
pub open spec fn merge_entry(
    cache: Map<Seq<char>, LayerView>,
    entry: LayerVariantView,
) -> Map<Seq<char>, LayerView> {
    match entry {
        LayerVariantView::Layer(l) => cache.insert(l.id, l),
        LayerVariantView::LayerGroup(_) => cache,
    }
}

/// The index after the entries of a flattened document, taken in order.
pub open spec fn merge_entries(
    cache: Map<Seq<char>, LayerView>,
    flat: Seq<LayerVariantView>,
) -> Map<Seq<char>, LayerView>
    decreases flat.len(),
{
    if flat.len() == 0 {
        cache
    } else {
        merge_entry(merge_entries(cache, flat.drop_last()), flat.last())
    }
}

/// The groups that name a source after one more entry: a group whose source
/// is not empty joins the end; any other entry changes nothing.
pub open spec fn collect_src_group(
    groups: Seq<LayerGroupView>,
    entry: LayerVariantView,
) -> Seq<LayerGroupView> {
    match entry {
        LayerVariantView::LayerGroup(g) => if g.src.len() > 0 {
            groups.push(g)
        } else {
            groups
        },
        LayerVariantView::Layer(_) => groups,
    }
}

/// The groups of a flattened document that name a source, in order.
pub open spec fn src_groups(flat: Seq<LayerVariantView>) -> Seq<LayerGroupView>
    decreases flat.len(),
{
    if flat.len() == 0 {
        Seq::empty()
    } else {
        collect_src_group(src_groups(flat.drop_last()), flat.last())
    }
}

/// The groups that name a source are the groups of the document whose source
/// is not empty, and no others: a group without a source adds no URL to visit.
pub proof fn lemma_src_groups(flat: Seq<LayerVariantView>)
    ensures
        forall|g: LayerGroupView| #[trigger]
            src_groups(flat).contains(g) <==> g.src.len() > 0 && flat.contains(
                LayerVariantView::LayerGroup(g),
            ),
    decreases flat.len(),
{
    if flat.len() > 0 {
        let front = flat.drop_last();
        lemma_src_groups(front);
        assert forall|g: LayerGroupView| #[trigger]
            src_groups(flat).contains(g) implies g.src.len() > 0 && flat.contains(
            LayerVariantView::LayerGroup(g),
        ) by {
            let i = choose|i: int| 0 <= i < src_groups(flat).len() && src_groups(flat)[i] == g;
            if i < src_groups(front).len() {
                assert(src_groups(front)[i] == g);
                assert(src_groups(front).contains(g));
                let j = choose|j: int|
                    0 <= j < front.len() && front[j] == LayerVariantView::LayerGroup(g);
                assert(flat[j] == LayerVariantView::LayerGroup(g));
            } else {
                assert(flat[flat.len() - 1] == LayerVariantView::LayerGroup(g));
            }
        }
        assert forall|g: LayerGroupView|
            g.src.len() > 0 && flat.contains(
                LayerVariantView::LayerGroup(g),
            ) implies #[trigger] src_groups(flat).contains(g) by {
            let j = choose|j: int|
                0 <= j < flat.len() && flat[j] == LayerVariantView::LayerGroup(g);
            if j < front.len() {
                assert(front[j] == LayerVariantView::LayerGroup(g));
                assert(front.contains(LayerVariantView::LayerGroup(g)));
                assert(src_groups(front).contains(g));
                let i = choose|i: int|
                    0 <= i < src_groups(front).len() && src_groups(front)[i] == g;
                assert(src_groups(flat)[i] == g);
            } else {
                assert(src_groups(flat)[src_groups(flat).len() - 1] == g);
            }
        }
    }
}

/// What a sequence of groups holds.
pub open spec fn groups_view(groups: Seq<LayerGroup>) -> Seq<LayerGroupView> {
    groups.map_values(|g: LayerGroup| g@)
}

/// Takes one entry of a flattened document into the index and into the list
/// of groups that name a source.
fn merge_one(
    cached_layers: &mut CachedLayers,
    has_src_groups: &mut Vec<LayerGroup>,
    entry: &LayerVariant,
)
    ensures
        final(cached_layers)@ == merge_entry(old(cached_layers)@, entry@),
        groups_view(final(has_src_groups)@) == collect_src_group(
            groups_view(old(has_src_groups)@),
            entry@,
        ),
{
    match entry {
        LayerVariant::Layer(l) => {
            cached_layers.insert(l.id.clone(), l.clone());
        },
        LayerVariant::LayerGroup(g) => {
            if !g.src.as_str().is_empty() {
                has_src_groups.push(g.clone());
                assert(groups_view(has_src_groups@) =~= groups_view(old(has_src_groups)@).push(
                    g@,
                ));
            }
        },
    }
}

/// Merges one document into the index: every leaf of the document, at any
/// depth, is stored under its id, a later leaf in place of an earlier one with
/// the same id. Returns the groups that name a source, in document order.
pub fn merge_layer_cache(cached_layers: &mut CachedLayers, layers: &Layers) -> (has_src_groups: Vec<
    LayerGroup,
>)
    ensures
        final(cached_layers)@ == merge_entries(old(cached_layers)@, flatten_all(layers@)),
        groups_view(has_src_groups@) == src_groups(flatten_all(layers@)),
{
    let flat = layers.iter();
    let ghost flat_view = refs_view(flat@);
    let mut has_src_groups: Vec<LayerGroup> = Vec::new();
    let mut i: usize = 0;
    assert(flat_view.take(0) =~= Seq::empty());
    assert(groups_view(has_src_groups@) =~= Seq::empty());
    while i < flat.len()
        invariant
            i <= flat.len(),
            flat_view == refs_view(flat@),
            cached_layers@ == merge_entries(old(cached_layers)@, flat_view.take(i as int)),
            groups_view(has_src_groups@) == src_groups(flat_view.take(i as int)),
        decreases flat.len() - i,
    {
        assert(flat_view.take(i + 1).drop_last() =~= flat_view.take(i as int));
        assert(flat_view.take(i + 1).last() == flat@[i as int]@);
        merge_one(cached_layers, &mut has_src_groups, flat[i]);
        i += 1;
    }
    assert(flat_view.take(flat@.len() as int) =~= flat_view);
    has_src_groups
}

/// The last leaf of a flattened document that has the given id, if any has.
pub open spec fn last_leaf(flat: Seq<LayerVariantView>, id: Seq<char>) -> Option<LayerView>
    decreases flat.len(),
{
    if flat.len() == 0 {
        None
    } else {
        match flat.last() {
            LayerVariantView::Layer(l) => if l.id == id {
                Some(l)
            } else {
                last_leaf(flat.drop_last(), id)
            },
            LayerVariantView::LayerGroup(_) => last_leaf(flat.drop_last(), id),
        }
    }
}

/// After a merge, an id is in the index if it was there before or a leaf of
/// the document has it; it stands for the last such leaf, else for what it
/// stood for before.
pub proof fn lemma_merge_lookup(
    cache: Map<Seq<char>, LayerView>,
    flat: Seq<LayerVariantView>,
    id: Seq<char>,
)
    ensures
        merge_entries(cache, flat).dom().contains(id) <==> cache.dom().contains(id) || last_leaf(
            flat,
            id,
        ) is Some,
        merge_entries(cache, flat).dom().contains(id) ==> merge_entries(cache, flat)[id] == (
        match last_leaf(flat, id) {
            Some(l) => l,
            None => cache[id],
        }),
    decreases flat.len(),
{
    if flat.len() > 0 {
        lemma_merge_lookup(cache, flat.drop_last(), id);
    }
}

/// The index built from one document alone holds the ids of the document's
/// leaves and no others, each with the last leaf that has it: two indexes
/// built from the same document hold the same.
pub proof fn lemma_merge_fresh(flat: Seq<LayerVariantView>, id: Seq<char>)
    ensures
        merge_entries(Map::empty(), flat).dom().contains(id) <==> last_leaf(flat, id) is Some,
        last_leaf(flat, id) is Some ==> merge_entries(Map::empty(), flat)[id] == last_leaf(
            flat,
            id,
        )->0,
{
    lemma_merge_lookup(Map::empty(), flat, id);
}

/// Merging a document a second time changes nothing: the index after two
/// merges of one document is the index after one.
pub proof fn lemma_merge_idempotent(cache: Map<Seq<char>, LayerView>, flat: Seq<LayerVariantView>)
    ensures
        merge_entries(merge_entries(cache, flat), flat) == merge_entries(cache, flat),
{
    let once = merge_entries(cache, flat);
    let twice = merge_entries(once, flat);
    assert forall|id: Seq<char>| twice.dom().contains(id) == once.dom().contains(id) by {
        lemma_merge_lookup(cache, flat, id);
        lemma_merge_lookup(once, flat, id);
    }
    assert forall|id: Seq<char>| twice.dom().contains(id) implies twice[id] == once[id] by {
        lemma_merge_lookup(cache, flat, id);
        lemma_merge_lookup(once, flat, id);
    }
    assert(twice =~= once);
}

/// The last write wins: where two documents are merged one after the other
/// and the second holds a leaf with some id, that id stands for the second
/// document's last leaf with it, whatever the first document or the index held.
pub proof fn lemma_merge_last_write_wins(
    cache: Map<Seq<char>, LayerView>,
    first: Seq<LayerVariantView>,
    second: Seq<LayerVariantView>,
    id: Seq<char>,
)
    requires
        last_leaf(second, id) is Some,
    ensures
        merge_entries(merge_entries(cache, first), second).dom().contains(id),
        merge_entries(merge_entries(cache, first), second)[id] == last_leaf(second, id)->0,
{
    lemma_merge_lookup(merge_entries(cache, first), second, id);
}

/// Merging never removes an id, and only the ids of the document's leaves are
/// new or change what they stand for.
pub proof fn lemma_merge_keeps_others(
    cache: Map<Seq<char>, LayerView>,
    flat: Seq<LayerVariantView>,
    id: Seq<char>,
)
    requires
        last_leaf(flat, id) is None,
    ensures
        merge_entries(cache, flat).dom().contains(id) == cache.dom().contains(id),
        cache.dom().contains(id) ==> merge_entries(cache, flat)[id] == cache[id],
{
    lemma_merge_lookup(cache, flat, id);
}

/// The index of the last `/` of `url`, or -1 where it has none.
pub open spec fn last_slash(url: Seq<char>) -> int
    decreases url.len(),
{
    if url.len() == 0 {
        -1
    } else if url.last() == '/' {
        url.len() - 1
    } else {
        last_slash(url.drop_last())
    }
}

/// The directory of `url`: what stands before its last `/`.
pub open spec fn parent_directory(url: Seq<char>) -> Seq<char> {
    url.take(last_slash(url))
}

/// A source that begins with `./` is relative to the document that names it.
pub open spec fn is_relative_src(src: Seq<char>) -> bool {
    seq!['.', '/'].is_prefix_of(src)
}

/// The URL that a source stands for in the document at `url`. A relative
/// source is appended as it is, `./` included, to the document's directory
/// and a `/`; any other source is a URL already. Where the document's URL has
/// no `/`, and so no directory, a relative source stays as it is too.
pub open spec fn resolved_src(url: Seq<char>, src: Seq<char>) -> Seq<char> {
    if is_relative_src(src) && url.contains('/') {
        parent_directory(url) + seq!['/'] + src
    } else {
        src
    }
}

/// `last_slash` finds a `/` exactly where there is one, and none stands after it.
pub proof fn lemma_last_slash(url: Seq<char>)
    ensures
        -1 <= last_slash(url) < url.len(),
        last_slash(url) >= 0 <==> url.contains('/'),
        last_slash(url) >= 0 ==> url[last_slash(url)] == '/',
        forall|i: int| last_slash(url) < i < url.len() ==> url[i] != '/',
    decreases url.len(),
{
    if url.len() > 0 {
        let front = url.drop_last();
        lemma_last_slash(front);
        if url.last() == '/' {
            assert(url[url.len() - 1] == '/');
        } else {
            if front.contains('/') {
                let i = choose|i: int| 0 <= i < front.len() && front[i] == '/';
                assert(url[i] == '/');
            }
            if url.contains('/') {
                let i = choose|i: int| 0 <= i < url.len() && url[i] == '/';
                assert(front[i] == '/');
            }
            assert forall|i: int| last_slash(url) < i < url.len() implies url[i] != '/' by {
                if i < front.len() {
                    assert(front[i] == url[i]);
                }
            }
        }
    }
}

/// The index of the last `/` of `url`, if it has one.
fn find_last_slash(url: &Vec<char>) -> (r: Option<usize>)
    ensures
        match r {
            Some(i) => i == last_slash(url@),
            None => last_slash(url@) == -1,
        },
{
    let mut n: usize = url.len();
    assert(url@.take(n as int) =~= url@);
    while n > 0
        invariant
            n <= url.len(),
            last_slash(url@) == last_slash(url@.take(n as int)),
        decreases n,
    {
        assert(url@.take(n as int).drop_last() =~= url@.take(n - 1));
        if url[n - 1] == '/' {
            return Some(n - 1);
        }
        n -= 1;
    }
    None
}

/// The URL that `src` stands for in the document at `layers_txt_url`.
pub fn resolve_src_url(layers_txt_url: &str, src: &str) -> (r: String)
    ensures
        r@ == resolved_src(layers_txt_url@, src@),
{
    let url = chars_of(layers_txt_url);
    resolve_src_chars(&url, src)
}

/// The URL that `src` stands for in the document whose URL is `url`.
fn resolve_src_chars(url: &Vec<char>, src: &str) -> (r: String)
    ensures
        r@ == resolved_src(url@, src@),
{
    let tail = chars_of(src);
    let mut marker: Vec<char> = Vec::new();
    marker.push('.');
    marker.push('/');
    assert(marker@ =~= seq!['.', '/']);
    if matches_at(&tail, 0, &marker) {
        proof {
            lemma_last_slash(url@);
        }
        match find_last_slash(url) {
            Some(at) => {
                let mut out: Vec<char> = Vec::new();
                let mut i: usize = 0;
                while i < at
                    invariant
                        i <= at < url.len(),
                        out@ == url@.take(i as int),
                    decreases at - i,
                {
                    out.push(url[i]);
                    i += 1;
                }
                out.push('/');
                append_chars(&mut out, &tail);
                string_from(&out)
            },
            None => string_from(&tail),
        }
    } else {
        string_from(&tail)
    }
}

/// The URLs that the sources of `groups` stand for in the document at `url`.
pub open spec fn src_urls(url: Seq<char>, groups: Seq<LayerGroupView>) -> Seq<Seq<char>> {
    groups.map_values(|g: LayerGroupView| resolved_src(url, g.src))
}

/// What a crawl knows between two fetches.
pub struct CrawlView {
    /// The index built from the documents merged so far.
    pub cached_layers: Map<Seq<char>, LayerView>,
    /// The URLs still to visit; the first is visited next.
    pub url_queue: Seq<Seq<char>>,
    /// Whether the sources that groups name are visited too.
    pub resolve_src: bool,
}

/// The crawl after the document at `url`, whose flattening is `flat`, has been
/// fetched: its leaves are merged into the index and, where sources are
/// resolved, the URL of each group that names one joins the end of the queue,
/// in document order.
pub open spec fn crawl_step(state: CrawlView, url: Seq<char>, flat: Seq<LayerVariantView>) -> CrawlView {
    CrawlView {
        cached_layers: merge_entries(state.cached_layers, flat),
        url_queue: if state.resolve_src {
            state.url_queue + src_urls(url, src_groups(flat))
        } else {
            state.url_queue
        },
        resolve_src: state.resolve_src,
    }
}

/// What a queue of URLs holds.
pub open spec fn urls_view(urls: Seq<String>) -> Seq<Seq<char>> {
    urls.map_values(|u: String| u@)
}

/// What a list of borrowed URLs holds.
pub open spec fn strs_view(urls: Seq<&str>) -> Seq<Seq<char>> {
    urls.map_values(|u: &str| u@)
}

/// A crawl in progress.
pub struct Crawl {
    cached_layers: CachedLayers,
    url_queue: VecDeque<String>,
    resolve_src: bool,
}

impl View for Crawl {
    type V = CrawlView;

    closed spec fn view(&self) -> CrawlView {
        CrawlView {
            cached_layers: self.cached_layers@,
            url_queue: urls_view(self.url_queue@),
            resolve_src: self.resolve_src,
        }
    }
}

impl Crawl {
    /// A crawl that starts from `layers_txt_urls`, in that order, with an
    /// empty index.
    pub fn new(layers_txt_urls: &[&str], resolve_src: bool) -> (r: Self)
        ensures
            r@ == (CrawlView {
                cached_layers: Map::empty(),
                url_queue: strs_view(layers_txt_urls@),
                resolve_src,
            }),
    {
        let mut url_queue: VecDeque<String> = VecDeque::new();
        let mut i: usize = 0;
        while i < layers_txt_urls.len()
            invariant
                i <= layers_txt_urls.len(),
                urls_view(url_queue@) == strs_view(layers_txt_urls@.take(i as int)),
            decreases layers_txt_urls.len() - i,
        {
            let ghost before = urls_view(url_queue@);
            url_queue.push_back(layers_txt_urls[i].to_owned());
            assert(urls_view(url_queue@) =~= before.push(layers_txt_urls@[i as int]@));
            assert(strs_view(layers_txt_urls@.take(i + 1)) =~= strs_view(
                layers_txt_urls@.take(i as int),
            ).push(layers_txt_urls@[i as int]@));
            i += 1;
        }
        assert(layers_txt_urls@.take(layers_txt_urls@.len() as int) =~= layers_txt_urls@);
        Crawl { cached_layers: CachedLayers::new(), url_queue, resolve_src }
    }

    /// Takes the URL to visit next off the queue. `None` means that the crawl
    /// is complete.
    pub fn next_url(&mut self) -> (r: Option<String>)
        ensures
            match r {
                Some(url) => old(self)@.url_queue.len() > 0 && url@ == old(self)@.url_queue[0]
                    && final(self)@ == (CrawlView {
                    url_queue: old(self)@.url_queue.skip(1),
                    ..old(self)@
                }),
                None => old(self)@.url_queue.len() == 0 && final(self)@ == old(self)@,
            },
    {
        let ghost before = urls_view(self.url_queue@);
        let r = self.url_queue.pop_front();
        proof {
            if r.is_some() {
                assert(urls_view(self.url_queue@) =~= before.skip(1));
            }
        }
        r
    }

    /// Takes in the document that was fetched from `layers_txt_url`.
    pub fn merge(&mut self, layers_txt_url: &str, layers: &Layers)
        ensures
            final(self)@ == crawl_step(old(self)@, layers_txt_url@, flatten_all(layers@)),
    {
        let has_src_groups = merge_layer_cache(&mut self.cached_layers, layers);
        if self.resolve_src {
            let url = chars_of(layers_txt_url);
            let ghost groups = groups_view(has_src_groups@);
            let ghost queue_before = urls_view(self.url_queue@);
            let ghost cache_now = self.cached_layers;
            let mut i: usize = 0;
            assert(src_urls(layers_txt_url@, groups.take(0)) =~= Seq::empty());
            while i < has_src_groups.len()
                invariant
                    i <= has_src_groups.len(),
                    url@ == layers_txt_url@,
                    groups == groups_view(has_src_groups@),
                    self.resolve_src == old(self).resolve_src,
                    self.cached_layers == cache_now,
                    urls_view(self.url_queue@) == queue_before + src_urls(
                        layers_txt_url@,
                        groups.take(i as int),
                    ),
                decreases has_src_groups.len() - i,
            {
                let ghost queue_now = urls_view(self.url_queue@);
                let resolved = resolve_src_chars(&url, has_src_groups[i].src.as_str());
                self.url_queue.push_back(resolved);
                assert(urls_view(self.url_queue@) =~= queue_now.push(resolved@));
                assert(src_urls(layers_txt_url@, groups.take(i + 1)) =~= src_urls(
                    layers_txt_url@,
                    groups.take(i as int),
                ).push(resolved@));
                i += 1;
            }
            assert(groups.take(groups.len() as int) =~= groups);
        }
    }

    /// Takes in what the fetch from `layers_txt_url` came to. A document is
    /// merged and the crawl goes on. An error ends the crawl: the error is
    /// returned as it came, and with the crawl its index is gone.
    pub fn step(self, layers_txt_url: &str, fetched: Result<Layers, GsiError>) -> (r: Result<
        Crawl,
        GsiError,
    >)
        ensures
            match fetched {
                Ok(layers) => r matches Ok(next) && next@ == crawl_step(
                    self@,
                    layers_txt_url@,
                    flatten_all(layers@),
                ),
                Err(e) => r == Err::<Crawl, GsiError>(e),
            },
    {
        match fetched {
            Ok(layers) => {
                let mut next = self;
                next.merge(layers_txt_url, &layers);
                Ok(next)
            },
            Err(e) => Err(e),
        }
    }

    /// Ends the crawl and hands out the index.
    pub fn into_cache(self) -> (r: CachedLayers)
        ensures
            r@ == self@.cached_layers,
    {
        self.cached_layers
    }
}

} // verus!
