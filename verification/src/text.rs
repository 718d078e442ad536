//! Strings as sequences of characters: the conversions, searches and
//! replacements that the rest of the library is built on.

use vstd::prelude::*;

verus! {

/// `String::push` appends one character to the string.
pub assume_specification[ std::string::String::push ](s: &mut std::string::String, ch: char)
    ensures
        final(s)@ == old(s)@.push(ch),
;

/// The characters of `s`, in order.
pub fn chars_of(s: &str) -> (v: Vec<char>)
    ensures
        v@ == s@,
{
    let mut v: Vec<char> = Vec::new();
    for c in it: s.chars()
        invariant
            it.seq() == s@,
            v@ == s@.take(it.index() as int),
    {
        v.push(c);
    }
    v
}

/// The string made of the characters `chars[from..to]`.
pub fn string_of(chars: &Vec<char>, from: usize, to: usize) -> (s: String)
    requires
        from <= to <= chars.len(),
    ensures
        s@ == chars@.subrange(from as int, to as int),
{
    let mut s = String::new();
    let mut i: usize = from;
    while i < to
        invariant
            from <= i <= to <= chars.len(),
            s@ == chars@.subrange(from as int, i as int),
        decreases to - i,
    {
        s.push(chars[i]);
        i += 1;
    }
    s
}

/// The string made of all of `chars`.
pub fn string_from(chars: &Vec<char>) -> (s: String)
    ensures
        s@ == chars@,
{
    let s = string_of(chars, 0, chars.len());
    assert(chars@.subrange(0, chars@.len() as int) =~= chars@);
    s
}

/// `pat` stands in `s` at index `at`.
pub open spec fn occurs_at(s: Seq<char>, at: int, pat: Seq<char>) -> bool {
    &&& 0 <= at
    &&& at + pat.len() <= s.len()
    &&& s.subrange(at, at + pat.len()) == pat
}

/// `pat` stands somewhere in `s`.
pub open spec fn occurs_in(s: Seq<char>, pat: Seq<char>) -> bool {
    exists|at: int| occurs_at(s, at, pat)
}

/// Whether `pat` stands in `s` at index `at`.
pub fn matches_at(s: &Vec<char>, at: usize, pat: &Vec<char>) -> (r: bool)
    ensures
        r == occurs_at(s@, at as int, pat@),
{
    if at > s.len() || pat.len() > s.len() - at {
        return false;
    }
    let mut i: usize = 0;
    while i < pat.len()
        invariant
            at + pat.len() <= s.len(),
            i <= pat.len(),
            forall|j: int| 0 <= j < i ==> s@[at + j] == pat@[j],
        decreases pat.len() - i,
    {
        if s[at + i] != pat[i] {
            assert(s@.subrange(at as int, at + pat.len())[i as int] != pat@[i as int]);
            return false;
        }
        i += 1;
    }
    assert(s@.subrange(at as int, at + pat.len()) =~= pat@);
    true
}

/// Whether `s` begins with `prefix`.
pub fn starts_with(s: &str, prefix: &str) -> (r: bool)
    ensures
        r == prefix@.is_prefix_of(s@),
{
    let text = chars_of(s);
    let pat = chars_of(prefix);
    matches_at(&text, 0, &pat)
}

/// Whether `a` and `b` hold the same characters.
pub fn same_text(a: &str, b: &str) -> (r: bool)
    ensures
        r == (a@ == b@),
{
    let x = chars_of(a);
    let y = chars_of(b);
    if x.len() != y.len() {
        return false;
    }
    let r = matches_at(&x, 0, &y);
    assert(x@.subrange(0, x@.len() as int) =~= x@);
    r
}

/// `s` with each occurrence of `from` replaced by `to`. Occurrences are taken
/// from the left and do not overlap. An empty `from` occurs before each
/// character and at the end.
pub open spec fn replace_all(s: Seq<char>, from: Seq<char>, to: Seq<char>) -> Seq<char>
    decreases s.len(),
{
    if from.len() == 0 {
        if s.len() == 0 {
            to
        } else {
            to + seq![s[0]] + replace_all(s.skip(1), from, to)
        }
    } else if occurs_at(s, 0, from) {
        to + replace_all(s.skip(from.len() as int), from, to)
    } else if s.len() == 0 {
        s
    } else {
        seq![s[0]] + replace_all(s.skip(1), from, to)
    }
}

/// `s` with each occurrence of `from` replaced by `to`.
pub fn replace_chars(s: &Vec<char>, from: &Vec<char>, to: &Vec<char>) -> (r: Vec<char>)
    ensures
        r@ == replace_all(s@, from@, to@),
{
    let mut r: Vec<char> = Vec::new();
    let mut i: usize = 0;
    assert(s@.skip(0) =~= s@);
    while i < s.len()
        invariant
            i <= s.len(),
            r@ + replace_all(s@.skip(i as int), from@, to@) == replace_all(s@, from@, to@),
        decreases s.len() - i,
    {
        let ghost rest = s@.skip(i as int);
        assert(rest[0] == s@[i as int]);
        if from.len() == 0 {
            append_chars(&mut r, to);
            r.push(s[i]);
            assert(rest.skip(1) =~= s@.skip(i + 1));
            i += 1;
        } else if matches_at(s, i, from) {
            assert(rest.subrange(0, from@.len() as int) =~= s@.subrange(
                i as int,
                i + from@.len(),
            ));
            append_chars(&mut r, to);
            assert(rest.skip(from@.len() as int) =~= s@.skip(i + from@.len()));
            i += from.len();
        } else {
            proof {
                if i + from@.len() <= s@.len() {
                    assert(rest.subrange(0, from@.len() as int) =~= s@.subrange(
                        i as int,
                        i + from@.len(),
                    ));
                }
            }
            r.push(s[i]);
            assert(rest.skip(1) =~= s@.skip(i + 1));
            i += 1;
        }
    }
    if from.len() == 0 {
        append_chars(&mut r, to);
    }
    r
}

/// Replacing what does not occur changes nothing.
pub proof fn lemma_replace_absent(s: Seq<char>, from: Seq<char>, to: Seq<char>)
    requires
        !occurs_in(s, from),
    ensures
        replace_all(s, from, to) == s,
    decreases s.len(),
{
    assert(!occurs_at(s, 0, from));
    if from.len() == 0 {
        assert(s.subrange(0, 0) =~= from);
    } else if s.len() > 0 {
        let rest = s.skip(1);
        assert forall|at: int| !occurs_at(rest, at, from) by {
            if occurs_at(rest, at, from) {
                assert(s.subrange(at + 1, at + 1 + from.len()) =~= rest.subrange(
                    at,
                    at + from.len(),
                ));
                assert(occurs_at(s, at + 1, from));
            }
        }
        lemma_replace_absent(rest, from, to);
        assert(seq![s[0]] + rest =~= s);
    }
}

/// Where `from` stands at none of the first `n` indices of `s`, the first `n`
/// characters of `s` stay as they are.
pub proof fn lemma_replace_after(s: Seq<char>, n: int, from: Seq<char>, to: Seq<char>)
    requires
        from.len() > 0,
        0 <= n <= s.len(),
        forall|i: int| 0 <= i < n ==> !occurs_at(s, i, from),
    ensures
        replace_all(s, from, to) == s.take(n) + replace_all(s.skip(n), from, to),
    decreases n,
{
    if n == 0 {
        assert(s.skip(0) =~= s);
        assert(s.take(0) + replace_all(s, from, to) =~= replace_all(s, from, to));
    } else {
        let rest = s.skip(1);
        assert(!occurs_at(s, 0, from));
        assert forall|i: int| 0 <= i < n - 1 implies !occurs_at(rest, i, from) by {
            if occurs_at(rest, i, from) {
                assert(s.subrange(i + 1, i + 1 + from.len()) =~= rest.subrange(
                    i,
                    i + from.len(),
                ));
                assert(occurs_at(s, i + 1, from));
            }
        }
        lemma_replace_after(rest, n - 1, from, to);
        assert(rest.skip(n - 1) =~= s.skip(n));
        assert(seq![s[0]] + rest.take(n - 1) =~= s.take(n));
        assert(replace_all(s, from, to) =~= s.take(n) + replace_all(s.skip(n), from, to));
    }
}

/// A replacement whose text begins with a character that is not in `r` leaves
/// a beginning `r` of its result as it found it.
pub proof fn lemma_replace_keeps_prefix(s: Seq<char>, from: Seq<char>, to: Seq<char>, r: Seq<char>)
    requires
        from.len() > 0,
        to.len() > 0,
        !r.contains(to[0]),
        r.is_prefix_of(replace_all(s, from, to)),
    ensures
        r.is_prefix_of(s),
    decreases r.len(),
{
    if r.len() > 0 {
        let image = replace_all(s, from, to);
        assert(image[0] == r[0]);
        if occurs_at(s, 0, from) {
            assert(image[0] == to[0]);
            assert(r.contains(r[0]));
        } else {
            assert(s.len() > 0);
            let rest = s.skip(1);
            let tail = r.skip(1);
            assert(image =~= seq![s[0]] + replace_all(rest, from, to));
            assert(tail =~= replace_all(rest, from, to).subrange(0, tail.len() as int));
            assert(!tail.contains(to[0])) by {
                if tail.contains(to[0]) {
                    let i = choose|i: int| 0 <= i < tail.len() && tail[i] == to[0];
                    assert(r[i + 1] == to[0]);
                }
            }
            lemma_replace_keeps_prefix(rest, from, to, tail);
            assert(r =~= s.subrange(0, r.len() as int)) by {
                assert forall|i: int| 0 <= i < r.len() implies r[i] == s[i] by {
                    if i > 0 {
                        assert(tail[i - 1] == rest[i - 1]);
                    }
                }
            }
        }
    }
}

/// What does not hold one of the characters of `from` does not hold `from`.
pub proof fn lemma_absent_by_char(s: Seq<char>, from: Seq<char>, j: int)
    requires
        0 <= j < from.len(),
        !s.contains(from[j]),
    ensures
        !occurs_in(s, from),
{
    assert forall|at: int| !occurs_at(s, at, from) by {
        if occurs_at(s, at, from) {
            assert(s.subrange(at, at + from.len())[j] == s[at + j]);
        }
    }
}

/// Where `from` stands once, after a beginning without its first character
/// and before an end without `from`, it alone is replaced.
pub proof fn lemma_replace_once(head: Seq<char>, from: Seq<char>, to: Seq<char>, tail: Seq<char>)
    requires
        from.len() > 0,
        !head.contains(from[0]),
        !occurs_in(tail, from),
    ensures
        replace_all(head + from + tail, from, to) == head + to + tail,
{
    let rest = from + tail;
    assert(head + from + tail =~= head + rest);
    lemma_replace_skips(head, rest, from, to);
    assert(rest.subrange(0, from.len() as int) =~= from);
    assert(rest.skip(from.len() as int) =~= tail);
    lemma_replace_absent(tail, from, to);
    assert(head + (to + tail) =~= head + to + tail);
}

/// The characters of a number in decimal are digits.
pub proof fn lemma_decimal_digits(n: nat)
    ensures
        decimal(n).len() >= 1,
        forall|i: int| 0 <= i < decimal(n).len() ==> '0' <= #[trigger] decimal(n)[i] <= '9',
    decreases n,
{
    if n >= 10 {
        lemma_decimal_digits(n / 10);
    }
}

/// Two replacements do not meet: neither text to replace is empty or begins
/// the other; the first character of each stands neither later in either of
/// them nor in what the other puts in; and what each puts in is not empty and
/// begins with a character that does not stand in the other's text after its
/// first character.
pub open spec fn apart(k1: Seq<char>, v1: Seq<char>, k2: Seq<char>, v2: Seq<char>) -> bool {
    &&& k1.len() > 0
    &&& k2.len() > 0
    &&& !k1.is_prefix_of(k2)
    &&& !k2.is_prefix_of(k1)
    &&& !k1.skip(1).contains(k1[0])
    &&& !k2.skip(1).contains(k2[0])
    &&& !k1.skip(1).contains(k2[0])
    &&& !k2.skip(1).contains(k1[0])
    &&& v1.len() > 0
    &&& !v1.contains(k2[0])
    &&& !k2.skip(1).contains(v1[0])
    &&& v2.len() > 0
    &&& !v2.contains(k1[0])
    &&& !k1.skip(1).contains(v2[0])
}

/// After `head`, in which the first character of `from` does not stand, the
/// replacement goes on as if `head` were not there.
pub proof fn lemma_replace_skips(head: Seq<char>, tail: Seq<char>, from: Seq<char>, to: Seq<char>)
    requires
        from.len() > 0,
        !head.contains(from[0]),
    ensures
        replace_all(head + tail, from, to) == head + replace_all(tail, from, to),
{
    let s = head + tail;
    assert forall|i: int| 0 <= i < head.len() implies !occurs_at(s, i, from) by {
        if occurs_at(s, i, from) {
            assert(s.subrange(i, i + from.len())[0] == from[0]);
            assert(head[i] == from[0]);
        }
    }
    lemma_replace_after(s, head.len() as int, from, to);
    assert(s.take(head.len() as int) =~= head);
    assert(s.skip(head.len() as int) =~= tail);
}

/// Two replacements that do not meet can be made in either order.
pub proof fn lemma_replace_commutes(
    s: Seq<char>,
    k1: Seq<char>,
    v1: Seq<char>,
    k2: Seq<char>,
    v2: Seq<char>,
)
    requires
        apart(k1, v1, k2, v2),
    ensures
        replace_all(replace_all(s, k1, v1), k2, v2) == replace_all(replace_all(s, k2, v2), k1, v1),
    decreases s.len(),
{
    if occurs_at(s, 0, k1) {
        lemma_replace_commutes_at(s, k1, v1, k2, v2);
        lemma_replace_commutes(s.skip(k1.len() as int), k1, v1, k2, v2);
    } else if occurs_at(s, 0, k2) {
        lemma_replace_commutes_at(s, k2, v2, k1, v1);
        lemma_replace_commutes(s.skip(k2.len() as int), k1, v1, k2, v2);
    } else if s.len() > 0 {
        let rest = s.skip(1);
        let head = seq![s[0]];
        lemma_replace_commutes(rest, k1, v1, k2, v2);
        lemma_replace_commutes_between(s, k1, v1, k2, v2);
        lemma_replace_commutes_between(s, k2, v2, k1, v1);
    }
}

/// Where `k1` stands at the beginning of `s`, each order of the two
/// replacements puts `v1` there and goes on behind `k1`.
proof fn lemma_replace_commutes_at(
    s: Seq<char>,
    k1: Seq<char>,
    v1: Seq<char>,
    k2: Seq<char>,
    v2: Seq<char>,
)
    requires
        apart(k1, v1, k2, v2) || apart(k2, v2, k1, v1),
        occurs_at(s, 0, k1),
    ensures
        replace_all(replace_all(s, k1, v1), k2, v2) == v1 + replace_all(
            replace_all(s.skip(k1.len() as int), k1, v1),
            k2,
            v2,
        ),
        replace_all(replace_all(s, k2, v2), k1, v1) == v1 + replace_all(
            replace_all(s.skip(k1.len() as int), k2, v2),
            k1,
            v1,
        ),
{
    let t = s.skip(k1.len() as int);
    assert(s =~= k1 + t);
    // first k1, then k2: v1 holds no beginning of k2
    lemma_replace_skips(v1, replace_all(t, k1, v1), k2, v2);
    // first k2, then k1: k2 stands nowhere in k1
    assert forall|i: int| 0 <= i < k1.len() implies !occurs_at(s, i, k2) by {
        if occurs_at(s, i, k2) {
            if i == 0 {
                if k1.len() <= k2.len() {
                    assert(k1 =~= k2.subrange(0, k1.len() as int)) by {
                        assert forall|j: int| 0 <= j < k1.len() implies k1[j] == k2[j] by {
                            assert(s.subrange(0, k1.len() as int)[j] == s[j]);
                            assert(s.subrange(0, k2.len() as int)[j] == s[j]);
                        }
                    }
                } else {
                    assert(k2 =~= k1.subrange(0, k2.len() as int)) by {
                        assert forall|j: int| 0 <= j < k2.len() implies k1[j] == k2[j] by {
                            assert(s.subrange(0, k1.len() as int)[j] == s[j]);
                            assert(s.subrange(0, k2.len() as int)[j] == s[j]);
                        }
                    }
                }
            } else {
                assert(s.subrange(i, i + k2.len())[0] == k2[0]);
                assert(s.subrange(0, k1.len() as int)[i] == k1[i]);
                assert(k1.skip(1)[i - 1] == k2[0]);
            }
        }
    }
    lemma_replace_after(s, k1.len() as int, k2, v2);
    assert(s.take(k1.len() as int) =~= k1);
    let u = replace_all(t, k2, v2);
    assert((k1 + u).subrange(0, k1.len() as int) =~= k1);
    assert((k1 + u).skip(k1.len() as int) =~= u);
}

/// Where neither `k1` nor `k2` stands at the beginning of `s`, the replacement
/// of `k1` puts no `k2` there.
proof fn lemma_replace_commutes_between(
    s: Seq<char>,
    k1: Seq<char>,
    v1: Seq<char>,
    k2: Seq<char>,
    v2: Seq<char>,
)
    requires
        apart(k1, v1, k2, v2) || apart(k2, v2, k1, v1),
        s.len() > 0,
        !occurs_at(s, 0, k1),
        !occurs_at(s, 0, k2),
    ensures
        replace_all(replace_all(s, k1, v1), k2, v2) == seq![s[0]] + replace_all(
            replace_all(s.skip(1), k1, v1),
            k2,
            v2,
        ),
{
    let rest = s.skip(1);
    let image = replace_all(rest, k1, v1);
    let whole = seq![s[0]] + image;
    assert(replace_all(s, k1, v1) == whole);
    if occurs_at(whole, 0, k2) {
        let r = k2.skip(1);
        assert(whole.subrange(0, k2.len() as int)[0] == k2[0]);
        assert(r =~= image.subrange(0, r.len() as int)) by {
            assert forall|j: int| 0 <= j < r.len() implies r[j] == image[j] by {
                assert(whole.subrange(0, k2.len() as int)[j + 1] == whole[j + 1]);
            }
        }
        lemma_replace_keeps_prefix(rest, k1, v1, r);
        assert(s.subrange(0, k2.len() as int) =~= k2) by {
            assert forall|j: int| 0 <= j < k2.len() implies s[j] == k2[j] by {
                if j > 0 {
                    assert(r[j - 1] == rest[j - 1]);
                }
            }
        }
        assert(occurs_at(s, 0, k2));
    }
    assert(whole.skip(1) =~= image);
}

/// The index of the first `c` in `s`, or the length of `s` where it has none.
pub open spec fn first_index(s: Seq<char>, c: char) -> int
    decreases s.len(),
{
    if s.len() == 0 || s[0] == c {
        0
    } else {
        1 + first_index(s.skip(1), c)
    }
}

/// `first_index` is the one index before which no `c` stands and at which
/// `s` ends or a `c` stands.
pub proof fn lemma_first_index(s: Seq<char>, c: char, k: int)
    requires
        0 <= k <= s.len(),
        forall|j: int| 0 <= j < k ==> s[j] != c,
        k == s.len() || s[k] == c,
    ensures
        first_index(s, c) == k,
    decreases s.len(),
{
    if s.len() > 0 && s[0] != c {
        let rest = s.skip(1);
        assert forall|j: int| 0 <= j < k - 1 implies rest[j] != c by {
            assert(rest[j] == s[j + 1]);
        }
        lemma_first_index(rest, c, k - 1);
    }
}

/// `s` holds neither `{` nor `}`.
pub open spec fn brace_free(s: Seq<char>) -> bool {
    !s.contains('{') && !s.contains('}')
}

/// `k` is a name in braces: `{`, then a name without braces, then `}`.
pub open spec fn is_placeholder(k: Seq<char>) -> bool {
    &&& k.len() >= 2
    &&& k[0] == '{'
    &&& k.last() == '}'
    &&& brace_free(k.subrange(1, k.len() - 1))
}

/// Every `{` of `s` opens a name in braces: after it comes a name without
/// braces and then `}`. Names in braces stand one after the other, none
/// inside another.
pub open spec fn well_formed(s: Seq<char>) -> bool
    decreases s.len(),
{
    if s.len() == 0 {
        true
    } else if s[0] != '{' {
        well_formed(s.skip(1))
    } else {
        let close = first_index(s, '}');
        &&& 0 <= close < s.len()
        &&& is_placeholder(s.take(close + 1))
        &&& well_formed(s.skip(close + 1))
    }
}

/// A text without `{` before a well-formed text makes a well-formed text.
pub proof fn lemma_well_formed_after_plain(head: Seq<char>, rest: Seq<char>)
    requires
        !head.contains('{'),
        well_formed(rest),
    ensures
        well_formed(head + rest),
    decreases head.len(),
{
    if head.len() == 0 {
        assert(head + rest =~= rest);
    } else {
        let tail = head.skip(1);
        assert(head[0] != '{');
        assert(!tail.contains('{')) by {
            if tail.contains('{') {
                let i = choose|i: int| 0 <= i < tail.len() && tail[i] == '{';
                assert(head[i + 1] == '{');
            }
        }
        lemma_well_formed_after_plain(tail, rest);
        assert((head + rest).skip(1) =~= tail + rest);
    }
}

/// A name in braces before a well-formed text makes a well-formed text.
pub proof fn lemma_well_formed_after_placeholder(q: Seq<char>, rest: Seq<char>)
    requires
        is_placeholder(q),
        well_formed(rest),
    ensures
        well_formed(q + rest),
{
    let s = q + rest;
    let close = q.len() - 1;
    assert forall|j: int| 0 <= j < close implies s[j] != '}' by {
        if j > 0 {
            assert(q.subrange(1, q.len() - 1)[j - 1] == q[j]);
        }
    }
    lemma_first_index(s, '}', close);
    assert(s.take(close + 1) =~= q);
    assert(s.skip(close + 1) =~= rest);
}

/// A name in braces that stands where another begins is that other.
proof fn lemma_placeholder_at(q: Seq<char>, tail: Seq<char>, k: Seq<char>)
    requires
        is_placeholder(q),
        is_placeholder(k),
        occurs_at(q + tail, 0, k),
    ensures
        k == q,
{
    let s = q + tail;
    assert forall|j: int| 0 <= j < k.len() implies k[j] == s[j] by {
        assert(s.subrange(0, k.len() as int)[j] == s[j]);
    }
    if k.len() < q.len() {
        let j = k.len() - 1;
        assert(q[j] == '}');
        assert(q.subrange(1, q.len() - 1)[j - 1] == q[j]);
    } else if k.len() > q.len() {
        let j = q.len() - 1;
        assert(k[j] == '}');
        assert(k.subrange(1, k.len() - 1)[j - 1] == k[j]);
    } else {
        assert(k =~= q);
    }
}

/// Where a name in braces `q` begins the text, the replacement of a name in
/// braces `from` puts `to` in its place if the two are the same and leaves it
/// if they are not, and goes on behind it.
pub proof fn lemma_replace_placeholder(
    q: Seq<char>,
    tail: Seq<char>,
    from: Seq<char>,
    to: Seq<char>,
)
    requires
        is_placeholder(q),
        is_placeholder(from),
    ensures
        replace_all(q + tail, from, to) == (if q == from {
            to
        } else {
            q
        }) + replace_all(tail, from, to),
{
    let s = q + tail;
    if q == from {
        assert(s.subrange(0, from.len() as int) =~= from);
        assert(s.skip(from.len() as int) =~= tail);
    } else {
        assert forall|i: int| 0 <= i < q.len() implies !occurs_at(s, i, from) by {
            if occurs_at(s, i, from) {
                if i == 0 {
                    lemma_placeholder_at(q, tail, from);
                } else {
                    assert(s.subrange(i, i + from.len())[0] == s[i]);
                    assert(s[i] == q[i]);
                    if i < q.len() - 1 {
                        assert(q.subrange(1, q.len() - 1)[i - 1] == q[i]);
                    }
                }
            }
        }
        lemma_replace_after(s, q.len() as int, from, to);
        assert(s.take(q.len() as int) =~= q);
        assert(s.skip(q.len() as int) =~= tail);
    }
}

/// Two replacements of different names in braces by texts without braces can
/// be made in either order, where every `{` of the text opens a name in
/// braces.
pub proof fn lemma_replace_commutes_in_template(
    s: Seq<char>,
    k1: Seq<char>,
    v1: Seq<char>,
    k2: Seq<char>,
    v2: Seq<char>,
)
    requires
        is_placeholder(k1),
        is_placeholder(k2),
        k1 != k2,
        brace_free(v1),
        brace_free(v2),
        well_formed(s),
    ensures
        replace_all(replace_all(s, k1, v1), k2, v2) == replace_all(replace_all(s, k2, v2), k1, v1),
    decreases s.len(),
{
    if s.len() == 0 {
    } else if s[0] != '{' {
        let head = seq![s[0]];
        let rest = s.skip(1);
        assert(s =~= head + rest);
        lemma_replace_commutes_in_template(rest, k1, v1, k2, v2);
        lemma_replace_skips(head, rest, k1, v1);
        lemma_replace_skips(head, rest, k2, v2);
        lemma_replace_skips(head, replace_all(rest, k1, v1), k2, v2);
        lemma_replace_skips(head, replace_all(rest, k2, v2), k1, v1);
    } else {
        let close = first_index(s, '}');
        let q = s.take(close + 1);
        let rest = s.skip(close + 1);
        assert(s =~= q + rest);
        lemma_replace_commutes_in_template(rest, k1, v1, k2, v2);
        let r1 = replace_all(rest, k1, v1);
        let r2 = replace_all(rest, k2, v2);
        lemma_replace_placeholder(q, rest, k1, v1);
        lemma_replace_placeholder(q, rest, k2, v2);
        if q == k1 {
            lemma_replace_skips(v1, r1, k2, v2);
            lemma_replace_placeholder(q, r2, k1, v1);
        } else if q == k2 {
            lemma_replace_skips(v2, r2, k1, v1);
            lemma_replace_placeholder(q, r1, k2, v2);
        } else {
            lemma_replace_placeholder(q, r1, k2, v2);
            lemma_replace_placeholder(q, r2, k1, v1);
        }
    }
}

/// Appends the characters of `tail` to `out`.
pub fn append_chars(out: &mut Vec<char>, tail: &Vec<char>)
    ensures
        final(out)@ == old(out)@ + tail@,
{
    let mut i: usize = 0;
    while i < tail.len()
        invariant
            i <= tail.len(),
            out@ == old(out)@ + tail@.take(i as int),
        decreases tail.len() - i,
    {
        out.push(tail[i]);
        i += 1;
    }
    assert(tail@.take(tail@.len() as int) =~= tail@);
}

/// The decimal digit of `d`, for `d` below ten.
pub open spec fn digit(d: int) -> char {
    if d == 0 {
        '0'
    } else if d == 1 {
        '1'
    } else if d == 2 {
        '2'
    } else if d == 3 {
        '3'
    } else if d == 4 {
        '4'
    } else if d == 5 {
        '5'
    } else if d == 6 {
        '6'
    } else if d == 7 {
        '7'
    } else if d == 8 {
        '8'
    } else {
        '9'
    }
}

/// `n` written in decimal, without leading zeros.
pub open spec fn decimal(n: nat) -> Seq<char>
    decreases n,
{
    if n < 10 {
        seq![digit(n as int)]
    } else {
        decimal(n / 10).push(digit((n % 10) as int))
    }
}

/// Appends `n` in decimal to `out`.
fn push_decimal(n: u32, out: &mut String)
    ensures
        final(out)@ == old(out)@ + decimal(n as nat),
    decreases n,
{
    if n >= 10 {
        push_decimal(n / 10, out);
    }
    let d: u8 = (n % 10) as u8;
    let c: char = (48u8 + d) as char;
    assert(c == digit(d as int));
    out.push(c);
    assert(out@ =~= old(out)@ + decimal(n as nat));
}

/// `n` written in decimal.
pub fn decimal_string(n: u32) -> (s: String)
    ensures
        s@ == decimal(n as nat),
{
    let mut s = String::new();
    push_decimal(n, &mut s);
    assert(s@ =~= decimal(n as nat));
    s
}

/// White space, as Unicode's property White_Space has it.
pub open spec fn is_white_space(c: char) -> bool {
    let n = c as u32;
    ||| 0x9 <= n <= 0xd
    ||| n == 0x20
    ||| n == 0x85
    ||| n == 0xa0
    ||| n == 0x1680
    ||| 0x2000 <= n <= 0x200a
    ||| n == 0x2028
    ||| n == 0x2029
    ||| n == 0x202f
    ||| n == 0x205f
    ||| n == 0x3000
}

/// Whether `c` is white space.
pub fn white_space(c: char) -> (r: bool)
    ensures
        r == is_white_space(c),
{
    let n: u32 = c as u32;
    (0x9 <= n && n <= 0xd) || n == 0x20 || n == 0x85 || n == 0xa0 || n == 0x1680 || (0x2000 <= n
        && n <= 0x200a) || n == 0x2028 || n == 0x2029 || n == 0x202f || n == 0x205f || n == 0x3000
}

/// `s` without the white space at its beginning.
pub open spec fn trimmed_start(s: Seq<char>) -> Seq<char>
    decreases s.len(),
{
    if s.len() > 0 && is_white_space(s[0]) {
        trimmed_start(s.skip(1))
    } else {
        s
    }
}

/// `s` without the white space at its end.
pub open spec fn trimmed_end(s: Seq<char>) -> Seq<char>
    decreases s.len(),
{
    if s.len() > 0 && is_white_space(s.last()) {
        trimmed_end(s.drop_last())
    } else {
        s
    }
}

/// `s` without the white space at its beginning and at its end.
pub open spec fn trimmed(s: Seq<char>) -> Seq<char> {
    trimmed_end(trimmed_start(s))
}

/// The bounds of `s` without the white space at its beginning and at its end.
pub fn trim_bounds(s: &Vec<char>) -> (r: (usize, usize))
    ensures
        r.0 <= r.1 <= s.len(),
        s@.subrange(r.0 as int, r.1 as int) == trimmed(s@),
{
    let mut from: usize = 0;
    assert(s@.skip(0) =~= s@);
    while from < s.len() && white_space(s[from])
        invariant
            from <= s.len(),
            trimmed_start(s@.skip(from as int)) == trimmed_start(s@),
        decreases s.len() - from,
    {
        assert(s@.skip(from as int).skip(1) =~= s@.skip(from + 1));
        from += 1;
    }
    let mut to: usize = s.len();
    assert(s@.skip(from as int) =~= s@.subrange(from as int, to as int));
    while to > from && white_space(s[to - 1])
        invariant
            from <= to <= s.len(),
            trimmed_start(s@) == s@.subrange(from as int, s@.len() as int),
            trimmed_end(s@.subrange(from as int, to as int)) == trimmed(s@),
        decreases to - from,
    {
        assert(s@.subrange(from as int, to as int).drop_last() =~= s@.subrange(
            from as int,
            to - 1,
        ));
        to -= 1;
    }
    (from, to)
}

} // verus!
