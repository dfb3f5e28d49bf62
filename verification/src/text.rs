//! Text replacement over the characters of a string.
use vstd::prelude::*;

use crate::mapping::table_of;

verus! {

/// `pat` stands in `s` at position `i`.
pub open spec fn occurs_at(s: Seq<char>, pat: Seq<char>, i: int) -> bool {
    &&& 0 <= i
    &&& i + pat.len() <= s.len()
    &&& s.subrange(i, i + pat.len()) == pat
}

/// Every match of `from` in `s` replaced by `to`, matches taken from the
/// left and never overlapping. An empty `from` matches at every character
/// boundary, so `to` is put before each character and once at the end.
pub open spec fn replace_spec(s: Seq<char>, from: Seq<char>, to: Seq<char>) -> Seq<char>
    decreases s.len(),
{
    if from.len() == 0 {
        if s.len() == 0 {
            to
        } else {
            to + seq![s[0]] + replace_spec(s.drop_first(), from, to)
        }
    } else if s.len() == 0 {
        Seq::empty()
    } else if occurs_at(s, from, 0) {
        to + replace_spec(s.skip(from.len() as int), from, to)
    } else {
        seq![s[0]] + replace_spec(s.drop_first(), from, to)
    }
}

/// The text after each `(from, to)` pair of `pairs` is applied in turn.
pub open spec fn replace_each(s: Seq<char>, pairs: Seq<(Seq<char>, Seq<char>)>) -> Seq<char>
    decreases pairs.len(),
{
    if pairs.len() == 0 {
        s
    } else {
        replace_spec(replace_each(s, pairs.drop_last()), pairs.last().0, pairs.last().1)
    }
}

/// Appends one character to a string by calling std's `String::push`,
/// which is trusted, as its documentation says, to add `c` at the end and
/// leave the characters before it as they were.
#[verifier::external_body]
fn push_char(s: &mut String, c: char)
    ensures
        final(s)@ == old(s)@.push(c),
{
    s.push(c);
}

/// The characters of a string, in order.
pub fn chars_of(s: &str) -> (v: Vec<char>)
    ensures
        v@ == s@,
{
    let mut v: Vec<char> = Vec::new();
    for c in it: s.chars()
        invariant
            v@ == it.seq().take(it.index() as int),
    {
        v.push(c);
    }
    v
}

/// Whether `pat` stands in `s` at position `i`.
fn occurs_at_exec(s: &Vec<char>, pat: &Vec<char>, i: usize) -> (b: bool)
    requires
        i <= s.len(),
    ensures
        b == occurs_at(s@, pat@, i as int),
{
    if pat.len() > s.len() - i {
        return false;
    }
    let mut k: usize = 0;
    while k < pat.len()
        invariant
            i + pat.len() <= s.len(),
            k <= pat.len(),
            forall|j: int| 0 <= j < k ==> s@[i + j] == pat@[j],
        decreases pat.len() - k,
    {
        if s[i + k] != pat[k] {
            assert(s@.subrange(i as int, i + pat.len())[k as int] != pat@[k as int]);
            return false;
        }
        k = k + 1;
    }
    assert(s@.subrange(i as int, i + pat.len()) =~= pat@);
    true
}

/// One step of `replace_spec` read at position `i` of `s`.
proof fn lemma_replace_step(s: Seq<char>, from: Seq<char>, to: Seq<char>, i: int)
    requires
        0 <= i < s.len(),
    ensures
        from.len() == 0 ==> replace_spec(s.skip(i), from, to) == to + seq![s[i]]
            + replace_spec(s.skip(i + 1), from, to),
        from.len() > 0 && occurs_at(s, from, i) ==> replace_spec(s.skip(i), from, to) == to
            + replace_spec(s.skip(i + from.len()), from, to),
        from.len() > 0 && !occurs_at(s, from, i) ==> replace_spec(s.skip(i), from, to)
            == seq![s[i]] + replace_spec(s.skip(i + 1), from, to),
{
    let t = s.skip(i);
    assert(t.drop_first() =~= s.skip(i + 1));
    if from.len() > 0 {
        if occurs_at(s, from, i) {
            assert(t.subrange(0, from.len() as int) =~= s.subrange(i, i + from.len()));
            assert(t.skip(from.len() as int) =~= s.skip(i + from.len()));
        } else {
            if i + from.len() <= s.len() {
                assert(t.subrange(0, from.len() as int) =~= s.subrange(i, i + from.len()));
            }
        }
    }
}

/// `text` with every match of `from` replaced by `to`, as `str::replace` does it.
pub fn replace_text(text: &str, from: &str, to: &str) -> (r: String)
    ensures
        r@ == replace_spec(text@, from@, to@),
{
    let s = chars_of(text);
    let pat = chars_of(from);
    let mut out = String::new();
    let mut i: usize = 0;
    assert(s@.skip(0) =~= s@);
    assert(out@ + replace_spec(s@, pat@, to@) =~= replace_spec(s@, pat@, to@));
    while i < s.len()
        invariant
            s@ == text@,
            pat@ == from@,
            i <= s.len(),
            out@ + replace_spec(s@.skip(i as int), pat@, to@) == replace_spec(s@, pat@, to@),
        decreases s.len() - i,
    {
        proof {
            lemma_replace_step(s@, pat@, to@, i as int);
        }
        if pat.len() == 0 {
            out.append(to);
            push_char(&mut out, s[i]);
            i = i + 1;
        } else if occurs_at_exec(&s, &pat, i) {
            out.append(to);
            i = i + pat.len();
        } else {
            push_char(&mut out, s[i]);
            i = i + 1;
        }
    }
    assert(s@.skip(i as int) =~= Seq::<char>::empty());
    if pat.len() == 0 {
        out.append(to);
    }
    out
}

/// Replacing a source that does not occur in the text leaves the text as it is.
pub proof fn law_absent_source_leaves_text(s: Seq<char>, from: Seq<char>, to: Seq<char>)
    requires
        from.len() > 0,
        forall|i: int| !occurs_at(s, from, i),
    ensures
        replace_spec(s, from, to) == s,
    decreases s.len(),
{
    if s.len() > 0 {
        let t = s.drop_first();
        assert forall|i: int| !occurs_at(t, from, i) by {
            if occurs_at(t, from, i) {
                assert(s.subrange(i + 1, i + 1 + from.len()) =~= t.subrange(i, i + from.len()));
                assert(occurs_at(s, from, i + 1));
            }
        }
        law_absent_source_leaves_text(t, from, to);
        assert(!occurs_at(s, from, 0));
        assert(seq![s[0]] + t =~= s);
    }
}

/// A mapping whose target is its own source leaves every text as it is.
pub proof fn law_identity_mapping_leaves_text(s: Seq<char>, from: Seq<char>)
    ensures
        replace_spec(s, from, from) == s,
    decreases s.len(),
{
    if s.len() > 0 {
        if from.len() == 0 {
            law_identity_mapping_leaves_text(s.drop_first(), from);
            assert(from + seq![s[0]] + s.drop_first() =~= s);
        } else if occurs_at(s, from, 0) {
            law_identity_mapping_leaves_text(s.skip(from.len() as int), from);
            assert(s.subrange(0, from.len() as int) + s.skip(from.len() as int) =~= s);
        } else {
            law_identity_mapping_leaves_text(s.drop_first(), from);
            assert(seq![s[0]] + s.drop_first() =~= s);
        }
    } else if from.len() == 0 {
        assert(replace_spec(s, from, from) == from);
    }
}

/// With no mappings the text comes out as it went in.
pub proof fn law_no_mappings_leave_text(s: Seq<char>)
    ensures
        replace_each(s, table_of(Seq::empty())) == s,
{
}

/// `c` does not occur in `t`.
pub open spec fn free_of(t: Seq<char>, c: char) -> bool {
    forall|i: int| 0 <= i < t.len() ==> t[i] != c
}

/// `t` holds `c` twice in a row at position `i`.
pub open spec fn pair_at(t: Seq<char>, c: char, i: int) -> bool {
    0 <= i && i + 1 < t.len() && t[i] == c && t[i + 1] == c
}

/// `c` never stands twice in a row in `t`.
pub open spec fn no_pair_of(t: Seq<char>, c: char) -> bool {
    forall|i: int| !#[trigger] pair_at(t, c, i)
}

/// A suffix of a text keeps what holds of all of it.
proof fn lemma_suffix(s: Seq<char>, k: int, c: char)
    requires
        0 <= k <= s.len(),
    ensures
        free_of(s, c) ==> free_of(s.skip(k), c),
        no_pair_of(s, c) ==> no_pair_of(s.skip(k), c),
{
    if no_pair_of(s, c) {
        assert forall|i: int| !#[trigger] pair_at(s.skip(k), c, i) by {
            if pair_at(s.skip(k), c, i) {
                assert(pair_at(s, c, i + k));
            }
        }
    }
}

/// With a non-empty source and target, the result of a replacement starts
/// with the text's first character or the target's.
proof fn lemma_replace_first(s: Seq<char>, from: Seq<char>, to: Seq<char>)
    requires
        from.len() > 0,
        to.len() > 0,
        s.len() > 0,
    ensures
        replace_spec(s, from, to).len() > 0,
        replace_spec(s, from, to)[0] == s[0] || replace_spec(s, from, to)[0] == to[0],
{
}

/// A replacement whose target lacks `c` brings no `c` into a text without one.
pub proof fn lemma_replace_keeps_free(s: Seq<char>, from: Seq<char>, to: Seq<char>, c: char)
    requires
        from.len() > 0,
        free_of(s, c),
        free_of(to, c),
    ensures
        free_of(replace_spec(s, from, to), c),
    decreases s.len(),
{
    if s.len() > 0 {
        if occurs_at(s, from, 0) {
            let rest = s.skip(from.len() as int);
            lemma_suffix(s, from.len() as int, c);
            lemma_replace_keeps_free(rest, from, to, c);
            let r = replace_spec(rest, from, to);
            assert forall|i: int| 0 <= i < (to + r).len() implies (to + r)[i] != c by {
                if i >= to.len() {
                    assert((to + r)[i] == r[i - to.len()]);
                }
            }
        } else {
            let rest = s.drop_first();
            lemma_suffix(s, 1, c);
            lemma_replace_keeps_free(rest, from, to, c);
            let r = replace_spec(rest, from, to);
            assert forall|i: int| 0 <= i < (seq![s[0]] + r).len() implies (seq![s[0]] + r)[i]
                != c by {
                if i >= 1 {
                    assert((seq![s[0]] + r)[i] == r[i - 1]);
                }
            }
        }
    }
}

/// Replacing the one-character source `c` by a target without `c` leaves
/// no `c` in the text.
pub proof fn lemma_replace_removes_char(s: Seq<char>, c: char, to: Seq<char>)
    requires
        free_of(to, c),
    ensures
        free_of(replace_spec(s, seq![c], to), c),
    decreases s.len(),
{
    if s.len() > 0 {
        let from = seq![c];
        if occurs_at(s, from, 0) {
            let rest = s.skip(1);
            lemma_replace_removes_char(rest, c, to);
            let r = replace_spec(rest, from, to);
            assert forall|i: int| 0 <= i < (to + r).len() implies (to + r)[i] != c by {
                if i >= to.len() {
                    assert((to + r)[i] == r[i - to.len()]);
                }
            }
        } else {
            assert(s.subrange(0, 1) =~= seq![s[0]]);
            let rest = s.drop_first();
            lemma_replace_removes_char(rest, c, to);
            let r = replace_spec(rest, from, to);
            assert forall|i: int| 0 <= i < (seq![s[0]] + r).len() implies (seq![s[0]] + r)[i]
                != c by {
                if i >= 1 {
                    assert((seq![s[0]] + r)[i] == r[i - 1]);
                }
            }
        }
    }
}

/// The pair facts of `pre + r`, given those of `r` and of the junction.
proof fn lemma_pair_concat(pre: Seq<char>, r: Seq<char>, c: char)
    requires
        free_of(pre.drop_last(), c),
        pre.len() > 0,
        no_pair_of(r, c),
        pre.last() == c ==> r.len() == 0 || r[0] != c,
    ensures
        no_pair_of(pre + r, c),
{
    let t = pre + r;
    assert forall|i: int| !#[trigger] pair_at(t, c, i) by {
        if pair_at(t, c, i) {
            if i + 1 < pre.len() {
                assert(pre.drop_last()[i] == t[i]);
            } else if i + 1 == pre.len() {
                assert(t[i + 1] == r[0]);
            } else {
                assert(pair_at(r, c, i - pre.len()));
            }
        }
    }
}

/// A replacement with a non-empty target that lacks `c` never puts two
/// `c` next to each other, whether it removes doubled `c` or keeps a text
/// without them.
pub proof fn lemma_replace_no_pair(s: Seq<char>, from: Seq<char>, to: Seq<char>, c: char)
    requires
        from.len() > 0,
        to.len() > 0,
        free_of(to, c),
        from == seq![c, c] || no_pair_of(s, c),
    ensures
        no_pair_of(replace_spec(s, from, to), c),
    decreases s.len(),
{
    if s.len() > 0 {
        if occurs_at(s, from, 0) {
            let rest = s.skip(from.len() as int);
            lemma_suffix(s, from.len() as int, c);
            lemma_replace_no_pair(rest, from, to, c);
            let r = replace_spec(rest, from, to);
            assert(free_of(to.drop_last(), c));
            assert(to.last() == to[to.len() - 1]);
            lemma_pair_concat(to, r, c);
        } else {
            let rest = s.drop_first();
            lemma_suffix(s, 1, c);
            lemma_replace_no_pair(rest, from, to, c);
            let r = replace_spec(rest, from, to);
            let pre = seq![s[0]];
            assert(pre.drop_last() =~= Seq::<char>::empty());
            if s[0] == c && rest.len() > 0 {
                lemma_replace_first(rest, from, to);
                if r[0] == c {
                    assert(r[0] != to[0]);
                    assert(rest[0] == s[1]);
                    if from == seq![c, c] {
                        assert(s.subrange(0, 2) =~= from);
                    } else {
                        assert(pair_at(s, c, 0));
                    }
                }
            }
            lemma_pair_concat(pre, r, c);
        }
    }
}

/// A text that starts with a non-empty source has that source replaced by
/// the target, and the rest of the text is converted after it.
pub proof fn law_source_at_start_is_replaced(f: Seq<char>, q: Seq<char>, to: Seq<char>)
    requires
        f.len() > 0,
    ensures
        replace_spec(f + q, f, to) == to + replace_spec(q, f, to),
{
    let s = f + q;
    assert(s.subrange(0, f.len() as int) =~= f);
    assert(s.skip(f.len() as int) =~= q);
}

/// A text that ends with a non-empty source, with no match of the source
/// starting before it, is the conversion of what comes before followed by
/// the target.
pub proof fn law_source_at_end_is_replaced(p: Seq<char>, f: Seq<char>, to: Seq<char>)
    requires
        f.len() > 0,
        forall|i: int|
            0 <= i < p.len() ==> (#[trigger] (p + f).subrange(i, i + f.len())) != f,
    ensures
        replace_spec(p + f, f, to) == replace_spec(p, f, to) + to,
    decreases p.len(),
{
    let s = p + f;
    if p.len() == 0 {
        assert(s =~= f + Seq::<char>::empty());
        law_source_at_start_is_replaced(f, Seq::<char>::empty(), to);
    } else {
        let pt = p.drop_first();
        assert(s.drop_first() =~= pt + f);
        assert forall|i: int| 0 <= i < pt.len() implies (#[trigger] (pt + f).subrange(i, i + f.len()))
            != f by {
            assert((pt + f).subrange(i, i + f.len()) =~= s.subrange(i + 1, i + 1 + f.len()));
            assert(s.subrange(i + 1, i + 1 + f.len()) != f);
        }
        law_source_at_end_is_replaced(pt, f, to);
        assert(s.subrange(0, f.len() as int) != f);
        assert(!occurs_at(s, f, 0));
        if occurs_at(p, f, 0) {
            assert(p.subrange(0, f.len() as int) =~= s.subrange(0, f.len() as int));
        }
        assert(seq![p[0]] + replace_spec(pt, f, to) + to =~= seq![p[0]] + (replace_spec(pt, f, to)
            + to));
    }
}

/// A one-character source is gone after its replacement, whatever the
/// target, as long as the target does not hold that character itself: an
/// empty target removes it.
pub proof fn law_one_char_source_is_removed(s: Seq<char>, c: char, to: Seq<char>)
    requires
        free_of(to, c),
    ensures
        free_of(replace_spec(s, seq![c], to), c),
{
    lemma_replace_removes_char(s, c, to);
}

} // verus!
