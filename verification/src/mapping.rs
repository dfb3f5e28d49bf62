//! Character mappings, the settings that hold them, and the lookup table
//! that a replacement pass uses.
use vstd::prelude::*;

use crate::text::{
    free_of, law_absent_source_leaves_text, lemma_replace_keeps_free, lemma_replace_no_pair,
    lemma_replace_removes_char, no_pair_of, occurs_at, pair_at, replace_each, replace_spec, replace_text,
};

verus! {

/// A mapping as plain text: the source and what it is replaced by.
pub type Pair = (Seq<char>, Seq<char>);

/// One mapping: every occurrence of `from` becomes `to`.
#[derive(Clone, Debug)]
pub struct MappingEntry {
    pub from: String,
    pub to: String,
}

impl View for MappingEntry {
    type V = Pair;

    open spec fn view(&self) -> Pair {
        (self.from@, self.to@)
    }
}

impl Default for MappingEntry {
    fn default() -> (e: Self)
        ensures
            e@ == (Seq::<char>::empty(), Seq::<char>::empty()),
    {
        MappingEntry { from: String::new(), to: String::new() }
    }
}

impl MappingEntry {
    /// A mapping from `from` to `to`.
    pub fn new(from: &str, to: &str) -> (e: Self)
        ensures
            e@ == (from@, to@),
    {
        MappingEntry { from: from.to_owned(), to: to.to_owned() }
    }

    /// A copy of this mapping.
    pub fn duplicate(&self) -> (e: Self)
        ensures
            e@ == self@,
    {
        MappingEntry { from: self.from.clone(), to: self.to.clone() }
    }
}

/// The plain view of a list of mappings.
pub open spec fn pairs_of(v: Seq<MappingEntry>) -> Seq<Pair> {
    v.map_values(|e: MappingEntry| e@)
}

/// The settings: the list of mappings, in the order they were added.
#[derive(Clone, Debug)]
pub struct AppSettings {
    pub mappings: Vec<MappingEntry>,
}

impl View for AppSettings {
    type V = Seq<Pair>;

    open spec fn view(&self) -> Seq<Pair> {
        pairs_of(self.mappings@)
    }
}

impl Default for AppSettings {
    fn default() -> (s: Self)
        ensures
            s@ == Seq::<Pair>::empty(),
    {
        let s = AppSettings { mappings: Vec::new() };
        assert(s@ =~= Seq::<Pair>::empty());
        s
    }
}

/// The built-in mappings, in order.
pub open spec fn default_table() -> Seq<Pair> {
    seq![
        ("\u{201C}"@, "\""@),
        ("\u{201D}"@, "\""@),
        ("\u{2018}"@, "'"@),
        ("\u{2019}"@, "'"@),
        ("（"@, "("@),
        ("）"@, ")"@),
        ("《"@, "<"@),
        ("》"@, ">"@),
        ("「"@, "\""@),
        ("」"@, "\""@),
        ("『"@, "'"@),
        ("』"@, "'"@),
        ("。"@, "."@),
        ("，"@, ","@),
        ("、"@, ","@),
        ("；"@, ";"@),
        ("："@, ":"@),
        ("？"@, "?"@),
        ("！"@, "!"@),
        ("……"@, "..."@),
        ("—"@, "-"@),
        ("～"@, "~"@),
        ("·"@, "`"@),
    ]
}

/// The position of the last entry of `t` whose source is `k`, or -1.
pub open spec fn key_index(t: Seq<Pair>, k: Seq<char>) -> int
    decreases t.len(),
{
    if t.len() == 0 {
        -1
    } else if t.last().0 == k {
        t.len() - 1
    } else {
        key_index(t.drop_last(), k)
    }
}

/// The lookup table built from a list of mappings: mappings with an empty
/// source are left out; a source that comes again keeps the place it first
/// had and takes the target of its latest mapping.
pub open spec fn table_of(s: Seq<Pair>) -> Seq<Pair>
    decreases s.len(),
{
    if s.len() == 0 {
        Seq::empty()
    } else {
        let t = table_of(s.drop_last());
        let e = s.last();
        if e.0.len() == 0 {
            t
        } else if key_index(t, e.0) >= 0 {
            t.update(key_index(t, e.0), e)
        } else {
            t.push(e)
        }
    }
}

/// The map that a list of mappings stands for: each non-empty source to
/// the target of its latest mapping.
pub open spec fn entries_map(s: Seq<Pair>) -> Map<Seq<char>, Seq<char>>
    decreases s.len(),
{
    if s.len() == 0 {
        Map::empty()
    } else if s.last().0.len() == 0 {
        entries_map(s.drop_last())
    } else {
        entries_map(s.drop_last()).insert(s.last().0, s.last().1)
    }
}

/// No source is empty.
pub open spec fn sources_nonempty(t: Seq<Pair>) -> bool {
    forall|i: int| 0 <= i < t.len() ==> (#[trigger] t[i]).0.len() > 0
}

/// No source occurs twice.
pub open spec fn sources_distinct(t: Seq<Pair>) -> bool {
    forall|i: int, j: int| 0 <= i < t.len() && 0 <= j < t.len() && i != j ==> (#[trigger] t[i]).0
        != (#[trigger] t[j]).0
}

/// What `key_index` finds.
pub proof fn lemma_key_index(t: Seq<Pair>, k: Seq<char>)
    ensures
        -1 <= key_index(t, k) < t.len(),
        key_index(t, k) >= 0 ==> t[key_index(t, k)].0 == k,
        key_index(t, k) == -1 ==> forall|i: int| 0 <= i < t.len() ==> (#[trigger] t[i]).0 != k,
    decreases t.len(),
{
    if t.len() > 0 {
        lemma_key_index(t.drop_last(), k);
        if t.last().0 != k && key_index(t, k) == -1 {
            assert forall|i: int| 0 <= i < t.len() implies (#[trigger] t[i]).0 != k by {
                if i < t.len() - 1 {
                    assert(t[i] == t.drop_last()[i]);
                }
            }
        }
    }
}

/// A table has non-empty, distinct sources.
pub proof fn lemma_table_well_formed(s: Seq<Pair>)
    ensures
        sources_nonempty(table_of(s)),
        sources_distinct(table_of(s)),
    decreases s.len(),
{
    if s.len() > 0 {
        let t = table_of(s.drop_last());
        let e = s.last();
        lemma_table_well_formed(s.drop_last());
        lemma_key_index(t, e.0);
        if e.0.len() > 0 {
            let r = table_of(s);
            if key_index(t, e.0) >= 0 {
                assert(r == t.update(key_index(t, e.0), e));
            } else {
                assert(r == t.push(e));
                assert forall|i: int| 0 <= i < t.len() implies r[i] == #[trigger] t[i] by {}
            }
        }
    }
}

/// What the map of a list with distinct, non-empty sources holds.
pub proof fn lemma_entries_map_distinct(t: Seq<Pair>)
    requires
        sources_nonempty(t),
        sources_distinct(t),
    ensures
        forall|i: int|
            0 <= i < t.len() ==> #[trigger] entries_map(t).contains_key(t[i].0) && entries_map(
                t,
            )[t[i].0] == t[i].1,
        forall|k: Seq<char>|
            #[trigger] entries_map(t).contains_key(k) ==> exists|i: int|
                0 <= i < t.len() && (#[trigger] t[i]).0 == k,
    decreases t.len(),
{
    if t.len() > 0 {
        let p = t.drop_last();
        assert forall|i: int| 0 <= i < p.len() implies #[trigger] p[i] == t[i] by {}
        assert(sources_nonempty(p));
        assert(sources_distinct(p)) by {
            assert forall|i: int, j: int|
                0 <= i < p.len() && 0 <= j < p.len() && i != j implies (#[trigger] p[i]).0
                != (#[trigger] p[j]).0 by {
                assert(p[i] == t[i] && p[j] == t[j]);
            }
        }
        lemma_entries_map_distinct(p);
        let m = entries_map(t);
        assert(t.last().0.len() > 0) by {
            assert(t[t.len() - 1].0.len() > 0);
        }
        assert(m == entries_map(p).insert(t.last().0, t.last().1));
        assert forall|i: int| 0 <= i < t.len() implies #[trigger] m.contains_key(t[i].0) && m[t[i].0]
            == t[i].1 by {
            if i < t.len() - 1 {
                assert(p[i] == t[i]);
                assert(t[i].0 != t[t.len() - 1].0);
            }
        }
        assert forall|k: Seq<char>| #[trigger] m.contains_key(k) implies exists|i: int|
            0 <= i < t.len() && (#[trigger] t[i]).0 == k by {
            if k != t.last().0 {
                let i = choose|i: int| 0 <= i < p.len() && (#[trigger] p[i]).0 == k;
                assert(t[i] == p[i]);
            } else {
                assert(t[t.len() - 1].0 == k);
            }
        }
    }
}

/// The table holds, for each non-empty source, the target of its latest
/// mapping, and nothing else.
pub proof fn law_table_keeps_latest_target(s: Seq<Pair>)
    ensures
        entries_map(table_of(s)) == entries_map(s),
    decreases s.len(),
{
    if s.len() > 0 {
        let t = table_of(s.drop_last());
        let e = s.last();
        law_table_keeps_latest_target(s.drop_last());
        lemma_table_well_formed(s.drop_last());
        lemma_table_well_formed(s);
        lemma_key_index(t, e.0);
        if e.0.len() > 0 {
            let r = table_of(s);
            lemma_entries_map_distinct(t);
            lemma_entries_map_distinct(r);
            let want = entries_map(t).insert(e.0, e.1);
            assert(entries_map(s) == entries_map(s.drop_last()).insert(e.0, e.1));
            if key_index(t, e.0) >= 0 {
                let ki = key_index(t, e.0);
                assert(r == t.update(ki, e));
                assert forall|k: Seq<char>| #[trigger] entries_map(r).contains_key(k)
                    <==> want.contains_key(k) by {
                    if entries_map(r).contains_key(k) {
                        let i = choose|i: int| 0 <= i < r.len() && (#[trigger] r[i]).0 == k;
                        if i != ki {
                            assert(r[i] == t[i]);
                        }
                    }
                    if want.contains_key(k) && k != e.0 {
                        let i = choose|i: int| 0 <= i < t.len() && (#[trigger] t[i]).0 == k;
                        assert(r[i] == t[i]);
                    }
                    if k == e.0 {
                        assert(r[ki].0 == k);
                    }
                }
                assert forall|k: Seq<char>| #[trigger] entries_map(r).contains_key(k) implies
                    entries_map(r)[k] == want[k] by {
                    let i = choose|i: int| 0 <= i < r.len() && (#[trigger] r[i]).0 == k;
                    if i != ki {
                        assert(r[i] == t[i]);
                    }
                }
                assert(entries_map(r) =~= want);
            } else {
                assert(r == t.push(e));
                assert forall|k: Seq<char>| #[trigger] entries_map(r).contains_key(k)
                    <==> want.contains_key(k) by {
                    if entries_map(r).contains_key(k) {
                        let i = choose|i: int| 0 <= i < r.len() && (#[trigger] r[i]).0 == k;
                        if i < t.len() {
                            assert(r[i] == t[i]);
                        }
                    }
                    if want.contains_key(k) && k != e.0 {
                        let i = choose|i: int| 0 <= i < t.len() && (#[trigger] t[i]).0 == k;
                        assert(r[i] == t[i]);
                    }
                    if k == e.0 {
                        assert(r[t.len() as int].0 == k);
                    }
                }
                assert forall|k: Seq<char>| #[trigger] entries_map(r).contains_key(k) implies
                    entries_map(r)[k] == want[k] by {
                    let i = choose|i: int| 0 <= i < r.len() && (#[trigger] r[i]).0 == k;
                    if i < t.len() {
                        assert(r[i] == t[i]);
                    }
                }
                assert(entries_map(r) =~= want);
            }
        }
    }
}

/// A list whose sources are non-empty and distinct is its own table.
pub proof fn law_distinct_list_is_its_own_table(s: Seq<Pair>)
    requires
        sources_nonempty(s),
        sources_distinct(s),
    ensures
        table_of(s) == s,
    decreases s.len(),
{
    if s.len() > 0 {
        let p = s.drop_last();
        assert forall|i: int| 0 <= i < p.len() implies #[trigger] p[i] == s[i] by {}
        assert(sources_distinct(p)) by {
            assert forall|i: int, j: int|
                0 <= i < p.len() && 0 <= j < p.len() && i != j implies (#[trigger] p[i]).0
                != (#[trigger] p[j]).0 by {
                assert(p[i] == s[i] && p[j] == s[j]);
            }
        }
        law_distinct_list_is_its_own_table(p);
        lemma_key_index(p, s.last().0);
        assert(s.last().0.len() > 0) by {
            assert(s[s.len() - 1].0.len() > 0);
        }
        if key_index(p, s.last().0) >= 0 {
            let ki = key_index(p, s.last().0);
            assert(s[ki] == p[ki]);
            assert(false);
        }
        assert(p.push(s.last()) =~= s);
    }
}

/// Tells the built-in sources apart by their first character.
spec fn source_rank(c: char) -> int {
    if c == '\u{201C}' {
        0
    } else if c == '\u{201D}' {
        1
    } else if c == '\u{2018}' {
        2
    } else if c == '\u{2019}' {
        3
    } else if c == '（' {
        4
    } else if c == '）' {
        5
    } else if c == '《' {
        6
    } else if c == '》' {
        7
    } else if c == '「' {
        8
    } else if c == '」' {
        9
    } else if c == '『' {
        10
    } else if c == '』' {
        11
    } else if c == '。' {
        12
    } else if c == '，' {
        13
    } else if c == '、' {
        14
    } else if c == '；' {
        15
    } else if c == '：' {
        16
    } else if c == '？' {
        17
    } else if c == '！' {
        18
    } else if c == '…' {
        19
    } else if c == '—' {
        20
    } else if c == '～' {
        21
    } else if c == '·' {
        22
    } else {
        -1
    }
}

/// What each built-in mapping is made of: its source is non-empty, plain
/// (see `plain_source`), and told apart by its first character; its target
/// is non-empty ASCII.
proof fn lemma_default_source(i: int)
    requires
        0 <= i < 23,
    ensures
        default_table()[i].0.len() > 0,
        source_rank(default_table()[i].0[0]) == i,
        default_table()[i].0[0] as u32 >= 0x80,
        plain_source(default_table()[i].0),
        default_table()[i].1.len() > 0,
        ascii_text(default_table()[i].1),
{
    reveal_strlit("\u{201C}");
    reveal_strlit("\u{201D}");
    reveal_strlit("\u{2018}");
    reveal_strlit("\u{2019}");
    reveal_strlit("（");
    reveal_strlit("）");
    reveal_strlit("《");
    reveal_strlit("》");
    reveal_strlit("「");
    reveal_strlit("」");
    reveal_strlit("『");
    reveal_strlit("』");
    reveal_strlit("。");
    reveal_strlit("，");
    reveal_strlit("、");
    reveal_strlit("；");
    reveal_strlit("：");
    reveal_strlit("？");
    reveal_strlit("！");
    reveal_strlit("……");
    reveal_strlit("—");
    reveal_strlit("～");
    reveal_strlit("·");
    reveal_strlit("\"");
    reveal_strlit("'");
    reveal_strlit("(");
    reveal_strlit(")");
    reveal_strlit("<");
    reveal_strlit(">");
    reveal_strlit(".");
    reveal_strlit(",");
    reveal_strlit(";");
    reveal_strlit(":");
    reveal_strlit("?");
    reveal_strlit("!");
    reveal_strlit("...");
    reveal_strlit("-");
    reveal_strlit("~");
    reveal_strlit("`");
    if i == 0 {
    } else if i == 1 {
    } else if i == 2 {
    } else if i == 3 {
    } else if i == 4 {
    } else if i == 5 {
    } else if i == 6 {
    } else if i == 7 {
    } else if i == 8 {
    } else if i == 9 {
    } else if i == 10 {
    } else if i == 11 {
    } else if i == 12 {
    } else if i == 13 {
    } else if i == 14 {
    } else if i == 15 {
    } else if i == 16 {
    } else if i == 17 {
    } else if i == 18 {
    } else if i == 19 {
    } else if i == 20 {
    } else if i == 21 {
    } else if i == 22 {
    }
}

/// The built-in mappings have non-empty, distinct sources, so their lookup
/// table is the list itself: none of them is dropped or overridden.
pub proof fn law_default_table_is_its_own_table()
    ensures
        default_table().len() == 23,
        sources_nonempty(default_table()),
        sources_distinct(default_table()),
        table_of(default_table()) == default_table(),
{
    let d = default_table();
    assert forall|i: int| 0 <= i < d.len() implies (#[trigger] d[i]).0.len() > 0 by {
        lemma_default_source(i);
    }
    assert forall|i: int, j: int| 0 <= i < d.len() && 0 <= j < d.len() && i != j implies (
    #[trigger] d[i]).0 != (#[trigger] d[j]).0 by {
        lemma_default_source(i);
        lemma_default_source(j);
    }
    law_distinct_list_is_its_own_table(d);
}

/// A text in which no source of a table occurs comes out of that table as
/// it went in.
pub proof fn law_text_without_sources_is_unchanged(s: Seq<char>, pairs: Seq<Pair>)
    requires
        sources_nonempty(pairs),
        forall|k: int, i: int| 0 <= k < pairs.len() ==> !(#[trigger] occurs_at(s, pairs[k].0, i)),
    ensures
        replace_each(s, pairs) == s,
    decreases pairs.len(),
{
    if pairs.len() > 0 {
        let p = pairs.drop_last();
        assert forall|k: int| 0 <= k < p.len() implies #[trigger] p[k] == pairs[k] by {}
        law_text_without_sources_is_unchanged(s, p);
        let last = pairs[pairs.len() - 1];
        assert forall|i: int| !occurs_at(s, last.0, i) by {}
        law_absent_source_leaves_text(s, last.0, last.1);
    }
}

/// The built-in mappings leave plain ASCII text as it is.
pub proof fn law_defaults_leave_ascii_text(s: Seq<char>)
    requires
        forall|i: int| 0 <= i < s.len() ==> (#[trigger] s[i]) as u32 <= 0x7f,
    ensures
        replace_each(s, table_of(default_table())) == s,
{
    law_default_table_is_its_own_table();
    let d = default_table();
    assert forall|k: int, i: int| 0 <= k < d.len() implies !(#[trigger] occurs_at(s, d[k].0, i)) by {
        lemma_default_source(k);
        if occurs_at(s, d[k].0, i) {
            assert(s.subrange(i, i + d[k].0.len())[0] == s[i]);
        }
    }
    law_text_without_sources_is_unchanged(s, d);
}

/// Every character of `t` is ASCII.
pub open spec fn ascii_text(t: Seq<char>) -> bool {
    forall|i: int| 0 <= i < t.len() ==> (#[trigger] t[i]) as u32 <= 0x7f
}

/// A source made of one non-ASCII character, or of one non-ASCII character
/// twice.
pub open spec fn plain_source(src: Seq<char>) -> bool {
    &&& src.len() == 1 || (src.len() == 2 && src[1] == src[0])
    &&& src[0] as u32 > 0x7f
}

/// Mappings from plain sources to non-empty ASCII targets.
pub open spec fn plain_table(p: Seq<Pair>) -> bool {
    forall|k: int|
        0 <= k < p.len() ==> plain_source((#[trigger] p[k]).0) && p[k].1.len() > 0 && ascii_text(
            p[k].1,
        )
}

/// No match of the plain source `src` is left in `r`.
pub open spec fn source_gone(r: Seq<char>, src: Seq<char>) -> bool {
    if src.len() == 1 {
        free_of(r, src[0])
    } else {
        no_pair_of(r, src[0])
    }
}

/// An ASCII text holds no non-ASCII character.
proof fn lemma_ascii_free(t: Seq<char>, c: char)
    requires
        ascii_text(t),
        c as u32 > 0x7f,
    ensures
        free_of(t, c),
{
    assert forall|i: int| 0 <= i < t.len() implies t[i] != c by {
        if t[i] == c {
            assert(t[i] as u32 == c as u32);
        }
    }
}

/// After a plain table has been applied, none of its sources is left.
proof fn lemma_plain_passes_remove_sources(s: Seq<char>, p: Seq<Pair>)
    requires
        plain_table(p),
    ensures
        forall|j: int| 0 <= j < p.len() ==> source_gone(replace_each(s, p), (#[trigger] p[j]).0),
    decreases p.len(),
{
    if p.len() > 0 {
        let q = p.drop_last();
        assert forall|k: int| 0 <= k < q.len() implies #[trigger] q[k] == p[k] by {}
        assert(plain_table(q));
        lemma_plain_passes_remove_sources(s, q);
        let prev = replace_each(s, q);
        let last = p[p.len() - 1];
        assert(p.last() == last);
        let r = replace_spec(prev, last.0, last.1);
        assert(replace_each(s, p) == r);
        assert forall|j: int| 0 <= j < p.len() implies source_gone(r, (#[trigger] p[j]).0) by {
            let src = p[j].0;
            lemma_ascii_free(last.1, src[0]);
            if j < p.len() - 1 {
                assert(q[j] == p[j]);
                assert(source_gone(prev, src));
                if src.len() == 1 {
                    lemma_replace_keeps_free(prev, last.0, last.1, src[0]);
                } else {
                    lemma_replace_no_pair(prev, last.0, last.1, src[0]);
                }
            } else {
                if src.len() == 1 {
                    assert(src =~= seq![src[0]]);
                    lemma_replace_removes_char(prev, src[0], last.1);
                } else {
                    assert(src =~= seq![src[0], src[0]]);
                    lemma_replace_no_pair(prev, last.0, last.1, src[0]);
                }
            }
        }
    }
}

/// A plain source that is gone does not occur anywhere.
proof fn lemma_gone_source_does_not_occur(r: Seq<char>, src: Seq<char>, i: int)
    requires
        plain_source(src),
        source_gone(r, src),
    ensures
        !occurs_at(r, src, i),
{
    if occurs_at(r, src, i) {
        assert(r.subrange(i, i + src.len())[0] == r[i]);
        if src.len() == 2 {
            assert(r.subrange(i, i + src.len())[1] == r[i + 1]);
            assert(pair_at(r, src[0], i));
        }
    }
}

/// Converting text that the built-in mappings have already converted
/// changes nothing.
pub proof fn law_defaults_are_idempotent(s: Seq<char>)
    ensures
        replace_each(replace_each(s, table_of(default_table())), table_of(default_table()))
            == replace_each(s, table_of(default_table())),
{
    law_default_table_is_its_own_table();
    let d = default_table();
    assert forall|k: int| 0 <= k < d.len() implies plain_source((#[trigger] d[k]).0) && d[k].1.len()
        > 0 && ascii_text(d[k].1) by {
        lemma_default_source(k);
    }
    lemma_plain_passes_remove_sources(s, d);
    let r = replace_each(s, d);
    assert forall|k: int, i: int| 0 <= k < d.len() implies !(#[trigger] occurs_at(r, d[k].0, i)) by {
        lemma_gone_source_does_not_occur(r, d[k].0, i);
    }
    law_text_without_sources_is_unchanged(r, d);
}

/// Each entry of a table is one of the mappings it was built from, and
/// each mapping with a non-empty source has its source in the table.
pub proof fn lemma_table_entries_from_list(m: Seq<Pair>)
    ensures
        forall|i: int|
            0 <= i < table_of(m).len() ==> exists|j: int|
                0 <= j < m.len() && #[trigger] table_of(m)[i] == m[j],
        forall|j: int|
            0 <= j < m.len() && (#[trigger] m[j]).0.len() > 0 ==> exists|i: int|
                0 <= i < table_of(m).len() && table_of(m)[i].0 == m[j].0,
    decreases m.len(),
{
    if m.len() > 0 {
        let p = m.drop_last();
        let t = table_of(p);
        let e = m.last();
        let r = table_of(m);
        lemma_table_entries_from_list(p);
        lemma_key_index(t, e.0);
        assert forall|j: int| 0 <= j < p.len() implies #[trigger] p[j] == m[j] by {}
        assert(e == m[m.len() - 1]);
        assert forall|i: int| 0 <= i < r.len() implies exists|j: int|
            0 <= j < m.len() && #[trigger] r[i] == m[j] by {
            if e.0.len() > 0 && key_index(t, e.0) >= 0 && i == key_index(t, e.0) {
                assert(r[i] == m[m.len() - 1]);
            } else if e.0.len() > 0 && key_index(t, e.0) < 0 && i == t.len() {
                assert(r[i] == m[m.len() - 1]);
            } else {
                assert(r[i] == t[i]);
                let j = choose|j: int| 0 <= j < p.len() && #[trigger] t[i] == p[j];
                assert(r[i] == m[j]);
            }
        }
        assert forall|j: int| 0 <= j < m.len() && (#[trigger] m[j]).0.len() > 0 implies exists|i: int|
            0 <= i < r.len() && r[i].0 == m[j].0 by {
            if j == m.len() - 1 {
                if key_index(t, e.0) >= 0 {
                    assert(r[key_index(t, e.0)].0 == m[j].0);
                } else {
                    assert(r[t.len() as int].0 == m[j].0);
                }
            } else {
                assert(p[j] == m[j]);
                let i = choose|i: int| 0 <= i < t.len() && t[i].0 == p[j].0;
                if e.0.len() > 0 && key_index(t, e.0) >= 0 && i == key_index(t, e.0) {
                    assert(r[i].0 == m[j].0);
                } else {
                    assert(r[i] == t[i]);
                }
            }
        }
    }
}

/// Applying a list of one-character replacements whose targets hold none
/// of the source characters leaves none of those characters.
proof fn lemma_char_passes_remove_chars(s: Seq<char>, p: Seq<Pair>)
    requires
        forall|k: int| 0 <= k < p.len() ==> (#[trigger] p[k]).0.len() == 1,
        forall|k: int, j: int|
            0 <= k < p.len() && 0 <= j < p.len() ==> free_of((#[trigger] p[k]).1, (#[trigger] p[j]).0[0]),
    ensures
        forall|j: int| 0 <= j < p.len() ==> free_of(replace_each(s, p), (#[trigger] p[j]).0[0]),
    decreases p.len(),
{
    if p.len() > 0 {
        let q = p.drop_last();
        assert forall|k: int| 0 <= k < q.len() implies #[trigger] q[k] == p[k] by {}
        assert forall|k: int, j: int| 0 <= k < q.len() && 0 <= j < q.len() implies free_of(
            (#[trigger] q[k]).1,
            (#[trigger] q[j]).0[0],
        ) by {
            assert(q[k] == p[k] && q[j] == p[j]);
        }
        lemma_char_passes_remove_chars(s, q);
        let prev = replace_each(s, q);
        let last = p[p.len() - 1];
        assert(p.last() == last);
        let r = replace_spec(prev, last.0, last.1);
        assert(replace_each(s, p) == r);
        assert forall|j: int| 0 <= j < p.len() implies free_of(r, (#[trigger] p[j]).0[0]) by {
            let c = p[j].0[0];
            assert(free_of(last.1, c));
            if j < p.len() - 1 {
                assert(q[j] == p[j]);
                lemma_replace_keeps_free(prev, last.0, last.1, c);
            } else {
                assert(last.0 =~= seq![c]);
                lemma_replace_removes_char(prev, c, last.1);
            }
        }
    }
}

/// Mappings whose sources are single characters, and whose targets hold
/// none of those characters, leave none of the source characters in the
/// converted text, whatever the targets are (an empty target removes its
/// source).
pub proof fn law_single_char_sources_are_removed(s: Seq<char>, m: Seq<Pair>)
    requires
        forall|k: int| 0 <= k < m.len() ==> (#[trigger] m[k]).0.len() <= 1,
        forall|k: int, j: int|
            0 <= k < m.len() && 0 <= j < m.len() && m[j].0.len() == 1 ==> free_of(
                (#[trigger] m[k]).1,
                (#[trigger] m[j]).0[0],
            ),
    ensures
        forall|j: int|
            0 <= j < m.len() && m[j].0.len() == 1 ==> free_of(
                replace_each(s, table_of(m)),
                (#[trigger] m[j]).0[0],
            ),
{
    let t = table_of(m);
    lemma_table_entries_from_list(m);
    lemma_table_well_formed(m);
    assert forall|k: int| 0 <= k < t.len() implies (#[trigger] t[k]).0.len() == 1 by {
        let j = choose|j: int| 0 <= j < m.len() && #[trigger] t[k] == m[j];
        assert(t[k].0.len() > 0);
    }
    assert forall|k: int, i: int| 0 <= k < t.len() && 0 <= i < t.len() implies free_of(
        (#[trigger] t[k]).1,
        (#[trigger] t[i]).0[0],
    ) by {
        let a = choose|a: int| 0 <= a < m.len() && #[trigger] t[k] == m[a];
        let b = choose|b: int| 0 <= b < m.len() && #[trigger] t[i] == m[b];
        assert(t[i].0.len() > 0);
        assert(free_of(m[a].1, m[b].0[0]));
    }
    lemma_char_passes_remove_chars(s, t);
    assert forall|j: int| 0 <= j < m.len() && m[j].0.len() == 1 implies free_of(
        replace_each(s, t),
        (#[trigger] m[j]).0[0],
    ) by {
        let i = choose|i: int| 0 <= i < t.len() && t[i].0 == m[j].0;
        assert(free_of(replace_each(s, t), t[i].0[0]));
    }
}

/// Settings with a single mapping convert a text exactly as one
/// replacement of that mapping's source by its target does, empty target
/// or not.
pub proof fn law_single_mapping_is_one_replacement(s: Seq<char>, from: Seq<char>, to: Seq<char>)
    requires
        from.len() > 0,
    ensures
        replace_each(s, table_of(seq![(from, to)])) == replace_spec(s, from, to),
{
    let m = seq![(from, to)];
    let empty = Seq::<Pair>::empty();
    assert(m.drop_last() =~= empty);
    assert(m.last() == (from, to));
    assert(table_of(empty) == empty);
    assert(key_index(empty, from) == -1);
    assert(table_of(m) == empty.push((from, to)));
    assert(empty.push((from, to)) =~= m);
    assert(replace_each(s, m) == replace_spec(replace_each(s, empty), from, to));
}

/// The position of the entry of `t` whose source is `key`, searching from
/// the back.
fn find_source(t: &Vec<MappingEntry>, key: &String) -> (r: Option<usize>)
    ensures
        match r {
            Some(i) => i as int == key_index(pairs_of(t@), key@),
            None => key_index(pairs_of(t@), key@) == -1,
        },
{
    let ghost tv = pairs_of(t@);
    let mut j: usize = t.len();
    assert(tv.take(j as int) =~= tv);
    while j > 0
        invariant
            j <= t.len(),
            tv == pairs_of(t@),
            key_index(tv, key@) == key_index(tv.take(j as int), key@),
        decreases j,
    {
        let ghost pre = tv.take(j as int);
        assert(pre.last() == tv[j - 1]);
        if t[j - 1].from == *key {
            return Some(j - 1);
        }
        assert(pre.drop_last() =~= tv.take(j - 1));
        j = j - 1;
    }
    None
}

impl AppSettings {
    /// Settings that hold the given mappings.
    pub fn new(mappings: Vec<MappingEntry>) -> (s: Self)
        ensures
            s.mappings@ == mappings@,
    {
        AppSettings { mappings }
    }

    /// The built-in mappings.
    pub fn default_with_defaults() -> (s: Self)
        ensures
            s@ == default_table(),
    {
        let mut v: Vec<MappingEntry> = Vec::new();
        v.push(MappingEntry::new("\u{201C}", "\""));
        v.push(MappingEntry::new("\u{201D}", "\""));
        v.push(MappingEntry::new("\u{2018}", "'"));
        v.push(MappingEntry::new("\u{2019}", "'"));
        v.push(MappingEntry::new("（", "("));
        v.push(MappingEntry::new("）", ")"));
        v.push(MappingEntry::new("《", "<"));
        v.push(MappingEntry::new("》", ">"));
        v.push(MappingEntry::new("「", "\""));
        v.push(MappingEntry::new("」", "\""));
        v.push(MappingEntry::new("『", "'"));
        v.push(MappingEntry::new("』", "'"));
        v.push(MappingEntry::new("。", "."));
        v.push(MappingEntry::new("，", ","));
        v.push(MappingEntry::new("、", ","));
        v.push(MappingEntry::new("；", ";"));
        v.push(MappingEntry::new("：", ":"));
        v.push(MappingEntry::new("？", "?"));
        v.push(MappingEntry::new("！", "!"));
        v.push(MappingEntry::new("……", "..."));
        v.push(MappingEntry::new("—", "-"));
        v.push(MappingEntry::new("～", "~"));
        v.push(MappingEntry::new("·", "`"));
        let s = AppSettings { mappings: v };
        assert(s@ =~= default_table());
        s
    }

    /// The settings that were read back, or the built-in ones where nothing
    /// could be read.
    pub fn from_loaded(loaded: Option<AppSettings>) -> (s: Self)
        ensures
            s@ == match loaded {
                Some(l) => l@,
                None => default_table(),
            },
    {
        match loaded {
            Some(l) => l,
            None => AppSettings::default_with_defaults(),
        }
    }

    /// The lookup table of these mappings (see `table_of`), as a list of
    /// entries with distinct, non-empty sources in the order a replacement
    /// pass walks them.
    pub fn to_hashmap(&self) -> (t: Vec<MappingEntry>)
        ensures
            pairs_of(t@) == table_of(self@),
            sources_nonempty(pairs_of(t@)),
            sources_distinct(pairs_of(t@)),
    {
        let mut t: Vec<MappingEntry> = Vec::new();
        let n = self.mappings.len();
        assert(self@.take(0) =~= Seq::<Pair>::empty());
        assert(pairs_of(t@) =~= Seq::<Pair>::empty());
        for i in 0..n
            invariant
                n == self.mappings.len(),
                pairs_of(t@) == table_of(self@.take(i as int)),
        {
            let ghost before = pairs_of(t@);
            let e = &self.mappings[i];
            assert(self@.take(i + 1).drop_last() =~= self@.take(i as int));
            assert(self@.take(i + 1).last() == e@);
            if !e.from.as_str().is_empty() {
                let copy = e.duplicate();
                proof {
                    lemma_key_index(before, e.from@);
                }
                match find_source(&t, &e.from) {
                    Some(k) => {
                        t.set(k, copy);
                        assert(pairs_of(t@) =~= before.update(k as int, e@));
                    },
                    None => {
                        t.push(copy);
                        assert(pairs_of(t@) =~= before.push(e@));
                    },
                }
            }
        }
        assert(self@.take(n as int) =~= self@);
        proof {
            lemma_table_well_formed(self@);
        }
        t
    }

    /// `text` with the lookup table of these mappings applied, one mapping
    /// after another in the table's order.
    pub fn apply_to(&self, text: &str) -> (r: String)
        ensures
            r@ == replace_each(text@, table_of(self@)),
    {
        let table = self.to_hashmap();
        let mut result = text.to_owned();
        let n = table.len();
        assert(pairs_of(table@).take(0) =~= Seq::<Pair>::empty());
        for i in 0..n
            invariant
                n == table.len(),
                pairs_of(table@) == table_of(self@),
                result@ == replace_each(text@, pairs_of(table@).take(i as int)),
        {
            let ghost tv = pairs_of(table@);
            assert(tv.take(i + 1).drop_last() =~= tv.take(i as int));
            assert(tv.take(i + 1).last() == table@[i as int]@);
            result = replace_text(result.as_str(), table[i].from.as_str(), table[i].to.as_str());
        }
        assert(pairs_of(table@).take(n as int) =~= pairs_of(table@));
        result
    }
}

} // verus!
