//! Tiles: their URLs, the kinds of elevation tile, and the text form of an
//! elevation tile.

use crate::constant;
use crate::error::GsiError;
use crate::text::{
    apart, brace_free, chars_of, decimal, decimal_string, first_index, is_placeholder,
    lemma_absent_by_char, lemma_decimal_digits, lemma_first_index, lemma_replace_absent,
    lemma_replace_commutes, lemma_replace_commutes_in_template, lemma_replace_once,
    lemma_well_formed_after_placeholder, lemma_well_formed_after_plain, occurs_at,
    occurs_in, replace_all, replace_chars, starts_with, string_from, string_of, trim_bounds,
    trimmed, well_formed,
};
use vstd::prelude::*;

verus! {

/// What a list of substitutions holds: pairs of placeholder and value.
pub open spec fn pairs_of(pairs: Seq<(&str, &str)>) -> Seq<(Seq<char>, Seq<char>)> {
    pairs.map_values(|kv: (&str, &str)| (kv.0@, kv.1@))
}

/// `pattern` after the substitutions `pairs`, applied one after the other in
/// the order given, each to the result of the one before: every occurrence of
/// the placeholder is replaced by the value.
pub open spec fn substituted(pattern: Seq<char>, pairs: Seq<(Seq<char>, Seq<char>)>) -> Seq<char>
    decreases pairs.len(),
{
    if pairs.len() == 0 {
        pattern
    } else {
        replace_all(substituted(pattern, pairs.drop_last()), pairs.last().0, pairs.last().1)
    }
}

/// Substitutions made one list after another are the substitutions of the
/// two lists joined.
pub proof fn lemma_substituted_concat(
    pattern: Seq<char>,
    first: Seq<(Seq<char>, Seq<char>)>,
    second: Seq<(Seq<char>, Seq<char>)>,
)
    ensures
        substituted(pattern, first + second) == substituted(substituted(pattern, first), second),
    decreases second.len(),
{
    if second.len() == 0 {
        assert(first + second =~= first);
    } else {
        lemma_substituted_concat(pattern, first, second.drop_last());
        assert((first + second).drop_last() =~= first + second.drop_last());
    }
}

/// One more substitution at the end of the list is one more replacement.
pub proof fn lemma_substituted_push(
    pattern: Seq<char>,
    pairs: Seq<(Seq<char>, Seq<char>)>,
    last: (Seq<char>, Seq<char>),
)
    ensures
        substituted(pattern, pairs.push(last)) == replace_all(
            substituted(pattern, pairs),
            last.0,
            last.1,
        ),
{
    assert(pairs.push(last).drop_last() =~= pairs);
}

/// A substitution whose placeholder does not occur in the pattern changes
/// nothing.
pub proof fn lemma_substitute_absent(pattern: Seq<char>, key: Seq<char>, value: Seq<char>)
    requires
        !occurs_in(pattern, key),
    ensures
        substituted(pattern, seq![(key, value)]) == pattern,
{
    lemma_substituted_push(pattern, Seq::empty(), (key, value));
    assert(Seq::<(Seq<char>, Seq<char>)>::empty().push((key, value)) =~= seq![(key, value)]);
    lemma_replace_absent(pattern, key, value);
}

/// Where two replacements can be made in either order on the pattern as the
/// substitutions before them leave it, the two substitutions can change
/// places in the list.
proof fn lemma_substituted_swap(
    pattern: Seq<char>,
    before: Seq<(Seq<char>, Seq<char>)>,
    a: (Seq<char>, Seq<char>),
    b: (Seq<char>, Seq<char>),
    after: Seq<(Seq<char>, Seq<char>)>,
)
    requires
        replace_all(replace_all(substituted(pattern, before), a.0, a.1), b.0, b.1) == replace_all(
            replace_all(substituted(pattern, before), b.0, b.1),
            a.0,
            a.1,
        ),
    ensures
        substituted(pattern, before + seq![a, b] + after) == substituted(
            pattern,
            before + seq![b, a] + after,
        ),
{
    let start = substituted(pattern, before);
    lemma_substituted_concat(pattern, before + seq![a, b], after);
    lemma_substituted_concat(pattern, before + seq![b, a], after);
    lemma_substituted_concat(pattern, before, seq![a, b]);
    lemma_substituted_concat(pattern, before, seq![b, a]);
    lemma_substituted_push(start, Seq::empty(), a);
    lemma_substituted_push(start, seq![a], b);
    lemma_substituted_push(start, Seq::empty(), b);
    lemma_substituted_push(start, seq![b], a);
    assert(Seq::<(Seq<char>, Seq<char>)>::empty().push(a) =~= seq![a]);
    assert(Seq::<(Seq<char>, Seq<char>)>::empty().push(b) =~= seq![b]);
    assert(seq![a].push(b) =~= seq![a, b]);
    assert(seq![b].push(a) =~= seq![b, a]);
}

/// The order of two neighbouring substitutions that do not meet does not
/// matter, wherever in the list they stand.
pub proof fn lemma_substitute_order(
    pattern: Seq<char>,
    before: Seq<(Seq<char>, Seq<char>)>,
    a: (Seq<char>, Seq<char>),
    b: (Seq<char>, Seq<char>),
    after: Seq<(Seq<char>, Seq<char>)>,
)
    requires
        apart(a.0, a.1, b.0, b.1),
    ensures
        substituted(pattern, before + seq![a, b] + after) == substituted(
            pattern,
            before + seq![b, a] + after,
        ),
{
    lemma_replace_commutes(substituted(pattern, before), a.0, a.1, b.0, b.1);
    lemma_substituted_swap(pattern, before, a, b, after);
}

/// The order of two neighbouring substitutions does not matter where their
/// placeholders are two different names in braces, their values hold no
/// brace, and every `{` of the pattern that they meet opens a name in braces.
pub proof fn lemma_substitute_order_of_placeholders(
    pattern: Seq<char>,
    before: Seq<(Seq<char>, Seq<char>)>,
    a: (Seq<char>, Seq<char>),
    b: (Seq<char>, Seq<char>),
    after: Seq<(Seq<char>, Seq<char>)>,
)
    requires
        is_placeholder(a.0),
        is_placeholder(b.0),
        a.0 != b.0,
        brace_free(a.1),
        brace_free(b.1),
        well_formed(substituted(pattern, before)),
    ensures
        substituted(pattern, before + seq![a, b] + after) == substituted(
            pattern,
            before + seq![b, a] + after,
        ),
{
    lemma_replace_commutes_in_template(substituted(pattern, before), a.0, a.1, b.0, b.1);
    lemma_substituted_swap(pattern, before, a, b, after);
}

/// Builds a URL from `pattern` by the substitutions `key_value_pairs`.
pub fn make_url(pattern: &str, key_value_pairs: &[(&str, &str)]) -> (url: String)
    ensures
        url@ == substituted(pattern@, pairs_of(key_value_pairs@)),
{
    let mut url = chars_of(pattern);
    let ghost pairs = pairs_of(key_value_pairs@);
    let mut i: usize = 0;
    while i < key_value_pairs.len()
        invariant
            i <= key_value_pairs.len(),
            pairs == pairs_of(key_value_pairs@),
            url@ == substituted(pattern@, pairs.take(i as int)),
        decreases key_value_pairs.len() - i,
    {
        let key = chars_of(key_value_pairs[i].0);
        let value = chars_of(key_value_pairs[i].1);
        url = replace_chars(&url, &key, &value);
        assert(pairs.take(i + 1).drop_last() =~= pairs.take(i as int));
        i += 1;
    }
    assert(pairs.take(pairs.len() as int) =~= pairs);
    string_from(&url)
}

/// The substitutions that make a tile's URL from the service's pattern.
pub open spec fn tile_pairs(id: Seq<char>, x: nat, y: nat, z: nat, ext: Seq<char>) -> Seq<
    (Seq<char>, Seq<char>),
> {
    seq![
        (constant::URL_PATTERN_ID@, id),
        (constant::URL_PATTERN_Z@, decimal(z)),
        (constant::URL_PATTERN_X@, decimal(x)),
        (constant::URL_PATTERN_Y@, decimal(y)),
        (constant::URL_PATTERN_EXT@, ext),
    ]
}

/// The URL of a tile, written out.
pub open spec fn tile_url(id: Seq<char>, x: nat, y: nat, z: nat, ext: Seq<char>) -> Seq<char> {
    "https://cyberjapandata.gsi.go.jp/xyz/"@ + id + seq!['/'] + decimal(z) + seq!['/'] + decimal(x)
        + seq!['/'] + decimal(y) + ext
}

/// `a + b` holds `c` only where `a` or `b` does.
proof fn lemma_contains_concat(a: Seq<char>, b: Seq<char>, c: char)
    requires
        !a.contains(c),
        !b.contains(c),
    ensures
        !(a + b).contains(c),
{
    if (a + b).contains(c) {
        let i = choose|i: int| 0 <= i < (a + b).len() && (a + b)[i] == c;
        if i < a.len() {
            assert(a[i] == c);
        } else {
            assert(b[i - a.len()] == c);
        }
    }
}

/// A number in decimal holds no `{`.
proof fn lemma_decimal_without_brace(n: nat)
    ensures
        !decimal(n).contains('{'),
{
    lemma_decimal_digits(n);
}

/// For an id without `{`, the substitutions into the service's pattern give
/// the URL written out: directory, id, zoom level, column, row and extension,
/// with a `/` between all but the last two.
pub proof fn lemma_tile_url(id: Seq<char>, x: nat, y: nat, z: nat, ext: Seq<char>)
    requires
        !id.contains('{'),
    ensures
        substituted(constant::URL_PATTERN@, tile_pairs(id, x, y, z, ext)) == tile_url(
            id,
            x,
            y,
            z,
            ext,
        ),
{
    reveal_strlit("https://cyberjapandata.gsi.go.jp/xyz/{id}/{z}/{x}/{y}{ext}");
    reveal_strlit("https://cyberjapandata.gsi.go.jp/xyz/");
    reveal_strlit("{id}");
    reveal_strlit("{z}");
    reveal_strlit("{x}");
    reveal_strlit("{y}");
    reveal_strlit("{ext}");
    reveal_strlit("/{z}/{x}/{y}{ext}");
    reveal_strlit("/{x}/{y}{ext}");
    reveal_strlit("/{y}{ext}");
    let dir = "https://cyberjapandata.gsi.go.jp/xyz/"@;
    let k_id = constant::URL_PATTERN_ID@;
    let k_z = constant::URL_PATTERN_Z@;
    let k_x = constant::URL_PATTERN_X@;
    let k_y = constant::URL_PATTERN_Y@;
    let k_ext = constant::URL_PATTERN_EXT@;
    let after_id = "/{z}/{x}/{y}{ext}"@;
    let after_z = "/{x}/{y}{ext}"@;
    let after_x = "/{y}{ext}"@;
    let slash = seq!['/'];
    let zs = decimal(z);
    let xs = decimal(x);
    let ys = decimal(y);
    lemma_decimal_without_brace(z);
    lemma_decimal_without_brace(x);
    lemma_decimal_without_brace(y);

    // the id
    let s0 = constant::URL_PATTERN@;
    let s1 = dir + id + after_id;
    assert(s0 =~= dir + k_id + after_id);
    assert(!after_id.contains('i'));
    lemma_absent_by_char(after_id, k_id, 1);
    lemma_replace_once(dir, k_id, id, after_id);

    // the zoom level
    let h2 = dir + id + slash;
    let s2 = h2 + zs + after_z;
    assert(s1 =~= h2 + k_z + after_z);
    assert(!after_z.contains('z'));
    lemma_absent_by_char(after_z, k_z, 1);
    lemma_contains_concat(dir, id, '{');
    lemma_contains_concat(dir + id, slash, '{');
    lemma_replace_once(h2, k_z, zs, after_z);

    // the column
    let h3 = h2 + zs + slash;
    let s3 = h3 + xs + after_x;
    assert(s2 =~= h3 + k_x + after_x);
    assert forall|at: int| !occurs_at(after_x, at, k_x) by {
        if occurs_at(after_x, at, k_x) {
            assert(after_x.subrange(at, at + 3)[0] == after_x[at]);
            assert(after_x.subrange(at, at + 3)[1] == after_x[at + 1]);
        }
    }
    lemma_contains_concat(h2, zs, '{');
    lemma_contains_concat(h2 + zs, slash, '{');
    lemma_replace_once(h3, k_x, xs, after_x);

    // the row
    let h4 = h3 + xs + slash;
    let s4 = h4 + ys + k_ext;
    assert(s3 =~= h4 + k_y + k_ext);
    assert(!k_ext.contains('y'));
    lemma_absent_by_char(k_ext, k_y, 1);
    lemma_contains_concat(h3, xs, '{');
    lemma_contains_concat(h3 + xs, slash, '{');
    lemma_replace_once(h4, k_y, ys, k_ext);

    // the extension
    let h5 = h4 + ys;
    let none = Seq::<char>::empty();
    let s5 = h5 + ext;
    assert(s4 =~= h5 + k_ext + none);
    assert forall|at: int| !occurs_at(none, at, k_ext) by {}
    lemma_contains_concat(h4, ys, '{');
    lemma_replace_once(h5, k_ext, ext, none);
    assert(h5 + ext + none =~= s5);

    let pairs = tile_pairs(id, x, y, z, ext);
    let one = seq![pairs[0]];
    let two = one.push(pairs[1]);
    let three = two.push(pairs[2]);
    let four = three.push(pairs[3]);
    lemma_substituted_push(s0, Seq::empty(), pairs[0]);
    assert(Seq::<(Seq<char>, Seq<char>)>::empty().push(pairs[0]) =~= one);
    lemma_substituted_push(s0, one, pairs[1]);
    lemma_substituted_push(s0, two, pairs[2]);
    lemma_substituted_push(s0, three, pairs[3]);
    lemma_substituted_push(s0, four, pairs[4]);
    assert(four.push(pairs[4]) =~= pairs);
    assert(s5 =~= tile_url(id, x, y, z, ext));
}

/// In the service's pattern every `{` opens a name in braces, and its five
/// placeholders are such names, so that the order of their substitutions does
/// not matter where the values hold no brace.
pub proof fn lemma_url_pattern_well_formed()
    ensures
        well_formed(constant::URL_PATTERN@),
        is_placeholder(constant::URL_PATTERN_ID@),
        is_placeholder(constant::URL_PATTERN_Z@),
        is_placeholder(constant::URL_PATTERN_X@),
        is_placeholder(constant::URL_PATTERN_Y@),
        is_placeholder(constant::URL_PATTERN_EXT@),
{
    reveal_strlit("https://cyberjapandata.gsi.go.jp/xyz/{id}/{z}/{x}/{y}{ext}");
    reveal_strlit("https://cyberjapandata.gsi.go.jp/xyz/");
    reveal_strlit("{id}");
    reveal_strlit("{z}");
    reveal_strlit("{x}");
    reveal_strlit("{y}");
    reveal_strlit("{ext}");
    let dir = "https://cyberjapandata.gsi.go.jp/xyz/"@;
    let k_id = constant::URL_PATTERN_ID@;
    let k_z = constant::URL_PATTERN_Z@;
    let k_x = constant::URL_PATTERN_X@;
    let k_y = constant::URL_PATTERN_Y@;
    let k_ext = constant::URL_PATTERN_EXT@;
    let slash = seq!['/'];
    assert(k_id.subrange(1, 3) =~= seq!['i', 'd']);
    assert(k_z.subrange(1, 2) =~= seq!['z']);
    assert(k_x.subrange(1, 2) =~= seq!['x']);
    assert(k_y.subrange(1, 2) =~= seq!['y']);
    assert(k_ext.subrange(1, 4) =~= seq!['e', 'x', 't']);
    let none = Seq::<char>::empty();
    lemma_well_formed_after_placeholder(k_ext, none);
    lemma_well_formed_after_placeholder(k_y, k_ext + none);
    lemma_well_formed_after_plain(slash, k_y + (k_ext + none));
    lemma_well_formed_after_placeholder(k_x, slash + (k_y + (k_ext + none)));
    lemma_well_formed_after_plain(slash, k_x + (slash + (k_y + (k_ext + none))));
    lemma_well_formed_after_placeholder(k_z, slash + (k_x + (slash + (k_y + (k_ext + none)))));
    lemma_well_formed_after_plain(
        slash,
        k_z + (slash + (k_x + (slash + (k_y + (k_ext + none))))),
    );
    lemma_well_formed_after_placeholder(
        k_id,
        slash + (k_z + (slash + (k_x + (slash + (k_y + (k_ext + none)))))),
    );
    lemma_well_formed_after_plain(
        dir,
        k_id + (slash + (k_z + (slash + (k_x + (slash + (k_y + (k_ext + none))))))),
    );
    assert(constant::URL_PATTERN@ =~= dir + (k_id + (slash + (k_z + (slash + (k_x + (slash + (k_y
        + (k_ext + none)))))))));
}

/// The URL of the tile of layer `id` at column `x` and row `y` of zoom level
/// `z`, with the extension `ext`: the service's pattern with the id, then the
/// zoom level, the column and the row in decimal, then the extension put in.
pub fn make_url_id_xyz_ext(id: &str, x: u32, y: u32, z: u8, ext: &str) -> (url: String)
    ensures
        url@ == substituted(
            constant::URL_PATTERN@,
            tile_pairs(id@, x as nat, y as nat, z as nat, ext@),
        ),
        !id@.contains('{') ==> url@ == tile_url(id@, x as nat, y as nat, z as nat, ext@),
{
    proof {
        if !id@.contains('{') {
            lemma_tile_url(id@, x as nat, y as nat, z as nat, ext@);
        }
    }
    let zs = decimal_string(z as u32);
    let xs = decimal_string(x);
    let ys = decimal_string(y);
    let pairs = [
        (constant::URL_PATTERN_ID, id),
        (constant::URL_PATTERN_Z, zs.as_str()),
        (constant::URL_PATTERN_X, xs.as_str()),
        (constant::URL_PATTERN_Y, ys.as_str()),
        (constant::URL_PATTERN_EXT, ext),
    ];
    let url = make_url(constant::URL_PATTERN, pairs.as_slice());
    assert(pairs_of(pairs@) =~= seq![
        (constant::URL_PATTERN_ID@, id@),
        (constant::URL_PATTERN_Z@, decimal(z as nat)),
        (constant::URL_PATTERN_X@, decimal(x as nat)),
        (constant::URL_PATTERN_Y@, decimal(y as nat)),
        (constant::URL_PATTERN_EXT@, ext@),
    ]);
    url
}

/// The URL of the tile of layer `id` at column `x` and row `y` of zoom level
/// `z`, after `pattern`: the id, then the zoom level, the column and the row
/// in decimal are put in.
pub fn make_url_pattern_id_xyz(pattern: &str, id: &str, x: u32, y: u32, z: u8) -> (url: String)
    ensures
        url@ == substituted(
            pattern@,
            seq![
                (constant::URL_PATTERN_ID@, id@),
                (constant::URL_PATTERN_Z@, decimal(z as nat)),
                (constant::URL_PATTERN_X@, decimal(x as nat)),
                (constant::URL_PATTERN_Y@, decimal(y as nat)),
            ],
        ),
{
    let zs = decimal_string(z as u32);
    let xs = decimal_string(x);
    let ys = decimal_string(y);
    let pairs = [
        (constant::URL_PATTERN_ID, id),
        (constant::URL_PATTERN_Z, zs.as_str()),
        (constant::URL_PATTERN_X, xs.as_str()),
        (constant::URL_PATTERN_Y, ys.as_str()),
    ];
    let url = make_url(pattern, pairs.as_slice());
    assert(pairs_of(pairs@) =~= seq![
        (constant::URL_PATTERN_ID@, id@),
        (constant::URL_PATTERN_Z@, decimal(z as nat)),
        (constant::URL_PATTERN_X@, decimal(x as nat)),
        (constant::URL_PATTERN_Y@, decimal(y as nat)),
    ]);
    url
}

/// The kinds of elevation tile.
#[derive(Debug, Clone, Copy, PartialEq, Eq, Structural)]
pub enum DemFormat {
    /// An image whose colours encode the elevations.
    Png,
    /// A text of numbers.
    Txt,
}

/// The kind of elevation tile that an extension names: one that begins with
/// `.png` names an image, one that begins with `.txt` a text, whatever follows
/// those four characters; any other extension names none.
pub open spec fn dem_format(ext: Seq<char>) -> Option<DemFormat> {
    if seq!['.', 'p', 'n', 'g'].is_prefix_of(ext) {
        Some(DemFormat::Png)
    } else if seq!['.', 't', 'x', 't'].is_prefix_of(ext) {
        Some(DemFormat::Txt)
    } else {
        None
    }
}

/// The kind of elevation tile that `ext` names, or the error that carries
/// `ext` where it names none.
pub fn dem_format_of_ext(ext: &str) -> (r: Result<DemFormat, GsiError>)
    ensures
        match dem_format(ext@) {
            Some(format) => r == Ok::<DemFormat, GsiError>(format),
            None => r matches Err(GsiError::GetDemUnsupportedExt(e)) && e@ == ext@,
        },
{
    proof {
        reveal_strlit(".png");
        reveal_strlit(".txt");
        assert(constant::EXT_DEM_PNG@ =~= seq!['.', 'p', 'n', 'g']);
        assert(constant::EXT_DEM_TXT@ =~= seq!['.', 't', 'x', 't']);
    }
    if starts_with(ext, constant::EXT_DEM_PNG) {
        Ok(DemFormat::Png)
    } else if starts_with(ext, constant::EXT_DEM_TXT) {
        Ok(DemFormat::Txt)
    } else {
        Err(GsiError::GetDemUnsupportedExt(ext.to_owned()))
    }
}

/// What to fetch for an elevation tile, and how to decode it.
#[derive(Debug)]
pub struct DemRequest {
    /// The kind of the tile.
    pub format: DemFormat,
    /// The URL of the tile.
    pub url: String,
}

/// The request for the elevation tile of layer `id` at column `x` and row `y`
/// of zoom level `z`: the kind that `ext` names, and the tile's URL. Where
/// `ext` names no kind, the error carries it.
pub fn dem_tile_request(id: &str, x: u32, y: u32, z: u8, ext: &str) -> (r: Result<
    DemRequest,
    GsiError,
>)
    ensures
        match dem_format(ext@) {
            Some(format) => r matches Ok(request) && request.format == format && request.url@
                == substituted(
                constant::URL_PATTERN@,
                tile_pairs(id@, x as nat, y as nat, z as nat, ext@),
            ) && (!id@.contains('{') ==> request.url@ == tile_url(
                id@,
                x as nat,
                y as nat,
                z as nat,
                ext@,
            )),
            None => r matches Err(GsiError::GetDemUnsupportedExt(e)) && e@ == ext@,
        },
{
    match dem_format_of_ext(ext) {
        Ok(format) => Ok(DemRequest { format, url: make_url_id_xyz_ext(id, x, y, z, ext) }),
        Err(e) => Err(e),
    }
}

/// The parts of `s` between the separators `sep`, in order. There is one part
/// more than there are separators, so that an empty `s` has one empty part.
pub open spec fn split(s: Seq<char>, sep: char) -> Seq<Seq<char>>
    decreases s.len(),
{
    let i = first_index(s, sep);
    if 0 <= i < s.len() {
        seq![s.take(i)] + split(s.skip(i + 1), sep)
    } else {
        seq![s]
    }
}

/// `line` without the carriage return at its end, where it has one.
pub open spec fn without_cr(line: Seq<char>) -> Seq<char> {
    if line.len() > 0 && line.last() == '\r' {
        line.drop_last()
    } else {
        line
    }
}

/// The lines of `s`. A line ends with a line feed, or with a carriage return
/// and a line feed; neither belongs to the line. What follows the last line
/// feed is a line too, unless it is empty.
pub open spec fn lines(s: Seq<char>) -> Seq<Seq<char>>
    decreases s.len(),
{
    let i = first_index(s, '\n');
    if s.len() == 0 {
        Seq::empty()
    } else if 0 <= i < s.len() {
        seq![without_cr(s.take(i))] + lines(s.skip(i + 1))
    } else {
        seq![s]
    }
}

/// The comma-separated tokens of each of `lines`, one line after the other.
pub open spec fn tokens_of_lines(lines: Seq<Seq<char>>) -> Seq<Seq<char>>
    decreases lines.len(),
{
    if lines.len() == 0 {
        Seq::empty()
    } else {
        split(lines[0], ',') + tokens_of_lines(lines.skip(1))
    }
}

/// The tokens of an elevation text: those of its first line, then those of its
/// second, and so on.
pub open spec fn dem_txt_tokens(dem_txt: Seq<char>) -> Seq<Seq<char>> {
    tokens_of_lines(lines(dem_txt))
}

/// The number of values in an elevation tile: one for each pixel, 65536.
pub open spec fn expected_len() -> nat {
    (constant::PIXELS_PER_TILE_ARRIS * constant::PIXELS_PER_TILE_ARRIS) as nat
}

/// What a list of strings holds.
pub open spec fn strings_view(strings: Seq<String>) -> Seq<Seq<char>> {
    strings.map_values(|t: String| t@)
}

/// Appends the parts of `s[from..to]` between the separators `sep` to `out`.
fn split_into(s: &Vec<char>, from: usize, to: usize, sep: char, out: &mut Vec<String>)
    requires
        from <= to <= s.len(),
    ensures
        strings_view(final(out)@) == strings_view(old(out)@) + split(
            s@.subrange(from as int, to as int),
            sep,
        ),
{
    let ghost whole = strings_view(old(out)@) + split(s@.subrange(from as int, to as int), sep);
    let mut start: usize = from;
    let mut i: usize = from;
    while i < to
        invariant
            from <= start <= i <= to <= s.len(),
            forall|j: int| start <= j < i ==> s@[j] != sep,
            strings_view(out@) + split(s@.subrange(start as int, to as int), sep) == whole,
        decreases to - i,
    {
        if s[i] == sep {
            let ghost rest = s@.subrange(start as int, to as int);
            let ghost before = strings_view(out@);
            proof {
                lemma_first_index(rest, sep, i - start);
                assert(rest.take(i - start) =~= s@.subrange(start as int, i as int));
                assert(rest.skip(i - start + 1) =~= s@.subrange(i + 1, to as int));
            }
            out.push(string_of(s, start, i));
            assert(strings_view(out@) =~= before.push(s@.subrange(start as int, i as int)));
            start = i + 1;
        }
        i += 1;
    }
    let ghost rest = s@.subrange(start as int, to as int);
    let ghost before = strings_view(out@);
    proof {
        lemma_first_index(rest, sep, rest.len() as int);
    }
    out.push(string_of(s, start, to));
    assert(strings_view(out@) =~= before.push(rest));
}

/// The tokens of an elevation text.
pub fn split_dem_txt(dem_txt: &str) -> (tokens: Vec<String>)
    ensures
        strings_view(tokens@) == dem_txt_tokens(dem_txt@),
{
    let s = chars_of(dem_txt);
    let mut tokens: Vec<String> = Vec::new();
    let mut start: usize = 0;
    let mut i: usize = 0;
    assert(strings_view(tokens@) =~= Seq::empty());
    assert(s@.skip(0) =~= s@);
    while i < s.len()
        invariant
            start <= i <= s.len(),
            s@ == dem_txt@,
            forall|j: int| start <= j < i ==> s@[j] != '\n',
            strings_view(tokens@) + dem_txt_tokens(s@.skip(start as int)) == dem_txt_tokens(s@),
        decreases s.len() - i,
    {
        if s[i] == '\n' {
            let ghost rest = s@.skip(start as int);
            proof {
                lemma_first_index(rest, '\n', i - start);
                assert(rest.take(i - start) =~= s@.subrange(start as int, i as int));
                assert(rest.skip(i - start + 1) =~= s@.skip(i + 1));
                assert((seq![without_cr(rest.take(i - start))] + lines(s@.skip(i + 1))).skip(1)
                    =~= lines(s@.skip(i + 1)));
            }
            let end = if i > start && s[i - 1] == '\r' {
                i - 1
            } else {
                i
            };
            assert(s@.subrange(start as int, end as int) =~= without_cr(
                s@.subrange(start as int, i as int),
            ));
            split_into(&s, start, end, ',', &mut tokens);
            start = i + 1;
        }
        i += 1;
    }
    if start < s.len() {
        let ghost rest = s@.skip(start as int);
        proof {
            lemma_first_index(rest, '\n', rest.len() as int);
            assert(rest =~= s@.subrange(start as int, s@.len() as int));
            assert(seq![rest].skip(1) =~= Seq::<Seq<char>>::empty());
        }
        let ghost before = strings_view(tokens@);
        assert(lines(rest) == seq![rest]);
        assert(tokens_of_lines(seq![rest]) =~= split(rest, ',')) by {
            assert(seq![rest][0] == rest);
            assert(seq![rest].skip(1) =~= Seq::<Seq<char>>::empty());
            assert(tokens_of_lines(seq![rest].skip(1)) =~= Seq::<Seq<char>>::empty());
        }
        split_into(&s, start, s.len(), ',', &mut tokens);
        assert(strings_view(tokens@) == before + dem_txt_tokens(rest));
    } else {
        let ghost rest = s@.skip(start as int);
        assert(rest =~= Seq::<char>::empty());
        assert(dem_txt_tokens(rest) =~= Seq::<Seq<char>>::empty());
        assert(strings_view(tokens@) =~= strings_view(tokens@) + dem_txt_tokens(rest));
    }
    tokens
}

/// Decodes an elevation text into its tokens, one for each of the 65536 values
/// of a tile. Tokens are not read as numbers here, so one that is no number
/// does not fail the decoding; only their count does, and the error carries
/// that count.
pub fn decode_dem_txt(dem_txt: &str) -> (r: Result<Vec<String>, GsiError>)
    ensures
        dem_txt_tokens(dem_txt@).len() == expected_len() ==> (r matches Ok(tokens)
            && strings_view(tokens@) == dem_txt_tokens(dem_txt@)),
        dem_txt_tokens(dem_txt@).len() != expected_len() ==> (r matches Err(
            GsiError::DecodeDemTxtDimensionsError(n),
        ) && n == dem_txt_tokens(dem_txt@).len()),
{
    let tokens = split_dem_txt(dem_txt);
    let side: usize = constant::PIXELS_PER_TILE_ARRIS as usize;
    if tokens.len() == side * side {
        Ok(tokens)
    } else {
        Err(GsiError::DecodeDemTxtDimensionsError(tokens.len()))
    }
}

/// A decoded image of the `image` crate.
#[verifier::external_type_specification]
#[verifier::external_body]
pub struct ExDynamicImage(image::DynamicImage);

/// What `gsj::altitude_tile::nishioka_nagatsu_2015::check` returns for `image`.
pub uninterp spec fn nishioka_nagatsu_checked(image: image::DynamicImage) -> Result<
    (),
    gsj::altitude_tile::error::NishiokaNagatsuError,
>;

/// `gsj::altitude_tile::nishioka_nagatsu_2015::check` accepts an image that is
/// encoded as an elevation tile: one of 256 by 256 pixels whose colours are
/// RGB or RGBA of eight bits. What it returns depends on the image alone.
#[verifier::external_body]
fn nishioka_nagatsu_check(image: &image::DynamicImage) -> (r: Result<
    (),
    gsj::altitude_tile::error::NishiokaNagatsuError,
>)
    ensures
        r == nishioka_nagatsu_checked(*image),
{
    gsj::altitude_tile::nishioka_nagatsu_2015::check(image)
}

/// What the decoding of a tile's bytes comes to: the image, or the error of
/// the image decoder, carried as it came.
pub open spec fn tile_image(loaded: Result<image::DynamicImage, image::ImageError>) -> Result<
    image::DynamicImage,
    GsiError,
> {
    match loaded {
        Ok(image) => Ok(image),
        Err(e) => Err(GsiError::ImageError(e)),
    }
}

/// What the check of an elevation image comes to: nothing, or the error of
/// the check, carried as it came.
pub open spec fn dem_check(
    checked: Result<(), gsj::altitude_tile::error::NishiokaNagatsuError>,
) -> Result<(), GsiError> {
    match checked {
        Ok(()) => Ok(()),
        Err(e) => Err(GsiError::GsjNishiokaNagatsuError(e)),
    }
}

/// What the check of a decoded image comes to for the image: the image where
/// the check accepted it, or the error of the check, carried as it came.
pub open spec fn dem_image(
    image: image::DynamicImage,
    checked: Result<(), gsj::altitude_tile::error::NishiokaNagatsuError>,
) -> Result<image::DynamicImage, GsiError> {
    match checked {
        Ok(()) => Ok(image),
        Err(e) => Err(GsiError::GsjNishiokaNagatsuError(e)),
    }
}

/// What the decoding of a tile's bytes comes to. The bytes are decoded by the
/// caller, who hands in what the image decoder returned.
pub fn tile_image_of(loaded: Result<image::DynamicImage, image::ImageError>) -> (r: Result<
    image::DynamicImage,
    GsiError,
>)
    ensures
        r == tile_image(loaded),
{
    match loaded {
        Ok(image) => Ok(image),
        Err(e) => Err(GsiError::from(e)),
    }
}

/// What the check of an elevation image comes to.
pub fn dem_check_of(checked: Result<(), gsj::altitude_tile::error::NishiokaNagatsuError>) -> (r:
    Result<(), GsiError>)
    ensures
        r == dem_check(checked),
{
    match checked {
        Ok(()) => Ok(()),
        Err(e) => Err(GsiError::from(e)),
    }
}

/// What the check of a decoded image comes to for the image.
pub fn dem_image_of(
    image: image::DynamicImage,
    checked: Result<(), gsj::altitude_tile::error::NishiokaNagatsuError>,
) -> (r: Result<image::DynamicImage, GsiError>)
    ensures
        r == dem_image(image, checked),
{
    match dem_check_of(checked) {
        Ok(()) => Ok(image),
        Err(e) => Err(e),
    }
}

/// Accepts an image that is encoded as an elevation tile: nothing where the
/// check accepts the image, else the error of the check, carried as it came.
pub fn check_dem_image(image: &image::DynamicImage) -> (r: Result<(), GsiError>)
    ensures
        r == dem_check(nishioka_nagatsu_checked(*image)),
{
    dem_check_of(nishioka_nagatsu_check(image))
}

/// Accepts what the image decoder returned for the bytes of an elevation
/// tile. Where the bytes were no image, the error is that of the image
/// decoder and nothing is checked; else the image is returned where the check
/// accepts it, and the error of the check where it does not.
pub fn accept_dem_image(loaded: Result<image::DynamicImage, image::ImageError>) -> (r: Result<
    image::DynamicImage,
    GsiError,
>)
    ensures
        r == match loaded {
            Ok(image) => dem_image(image, nishioka_nagatsu_checked(image)),
            Err(e) => Err(GsiError::ImageError(e)),
        },
{
    match tile_image_of(loaded) {
        Ok(image) => {
            let checked = nishioka_nagatsu_check(&image);
            dem_image_of(image, checked)
        },
        Err(e) => Err(e),
    }
}

/// The entries of a list of layers at a place: the parts of `csv` between its
/// commas, each without the white space around it.
pub open spec fn cocotile_entries(csv: Seq<char>) -> Seq<Seq<char>> {
    split(csv, ',').map_values(|part: Seq<char>| trimmed(part))
}

/// The entries of the list of layers that a place's tile holds.
pub fn parse_cocotile(csv: &str) -> (entries: Vec<String>)
    ensures
        strings_view(entries@) == cocotile_entries(csv@),
{
    let s = chars_of(csv);
    let mut parts: Vec<String> = Vec::new();
    assert(strings_view(parts@) =~= Seq::empty());
    split_into(&s, 0, s.len(), ',', &mut parts);
    assert(s@.subrange(0, s@.len() as int) =~= s@);
    let mut entries: Vec<String> = Vec::new();
    let mut i: usize = 0;
    while i < parts.len()
        invariant
            i <= parts.len(),
            strings_view(parts@) == split(csv@, ','),
            entries@.len() == i,
            forall|j: int| 0 <= j < i ==> (#[trigger] entries@[j])@ == trimmed(parts@[j]@),
        decreases parts.len() - i,
    {
        let part = chars_of(parts[i].as_str());
        let (from, to) = trim_bounds(&part);
        entries.push(string_of(&part, from, to));
        i += 1;
    }
    assert(strings_view(entries@) =~= cocotile_entries(csv@)) by {
        assert forall|j: int| 0 <= j < entries@.len() implies strings_view(entries@)[j]
            == cocotile_entries(csv@)[j] by {
            assert(strings_view(parts@)[j] == parts@[j]@);
        }
    }
    entries
}

} // verus!
