//! The text that `Config::to_string` writes, line by line, and the proof
//! that reading it back gives the same configuration when every name, key
//! and value can be written plainly.
use vstd::prelude::*;
use crate::config::{config_spec, entries_view, is_quoted, line_kind, parse_lines, render_entries, render_sections, section_of, split_lines, has_char, first_position, Config, ConfigMap, ConfigOutcome, LineKind};
use crate::keyed::{keyed_map, keys_ascending, has_key, lemma_keyed_map_insert};
use crate::text::{is_white_space, seq_less, split_on, trim, trim_end, trim_start};

verus! {

/// The lines, each followed by a newline.
pub open spec fn join_lines(ls: Seq<Seq<char>>) -> Seq<char>
    decreases ls.len(),
{
    if ls.len() == 0 {
        Seq::empty()
    } else {
        join_lines(ls.drop_last()) + ls.last() + "\n"@
    }
}

proof fn lemma_join_append(a: Seq<Seq<char>>, b: Seq<Seq<char>>)
    ensures
        join_lines(a + b) == join_lines(a) + join_lines(b),
    decreases b.len(),
{
    if b.len() == 0 {
        assert(a + b =~= a);
        assert(join_lines(a) + join_lines(b) =~= join_lines(a));
    } else {
        lemma_join_append(a, b.drop_last());
        assert((a + b).drop_last() =~= a + b.drop_last());
        assert((a + b).last() == b.last());
        assert(join_lines(a + b) =~= join_lines(a) + join_lines(b));
    }
}

proof fn lemma_split_on_len(s: Seq<char>, sep: char)
    ensures
        split_on(s, sep).len() >= 1,
    decreases s.len(),
{
    if s.len() > 0 {
        lemma_split_on_len(s.drop_last(), sep);
    }
}

/// Text without the separator only lengthens the last piece.
proof fn lemma_split_extend(p: Seq<char>, l: Seq<char>, sep: char)
    requires
        !has_char(l, sep),
    ensures
        split_on(p + l, sep) == split_on(p, sep).update(
            split_on(p, sep).len() - 1,
            split_on(p, sep).last() + l,
        ),
    decreases l.len(),
{
    lemma_split_on_len(p, sep);
    if l.len() == 0 {
        assert(p + l =~= p);
        assert(split_on(p, sep).last() + l =~= split_on(p, sep).last());
        assert(split_on(p, sep).update(split_on(p, sep).len() - 1, split_on(p, sep).last() + l)
            =~= split_on(p, sep));
    } else {
        let l2 = l.drop_last();
        assert(!has_char(l2, sep)) by {
            if has_char(l2, sep) {
                let i = choose|i: int| 0 <= i < l2.len() && l2[i] == sep;
                assert(l[i] == sep);
            }
        }
        lemma_split_extend(p, l2, sep);
        assert((p + l).drop_last() =~= p + l2);
        assert((p + l).last() == l.last());
        assert(l.last() != sep) by {
            assert(l[l.len() - 1] == l.last());
        }
        lemma_split_on_len(p + l2, sep);
        let q = split_on(p, sep);
        assert(split_on(p + l, sep) =~= q.update(q.len() - 1, q.last() + l)) by {
            assert(q.last() + l =~= (q.last() + l2).push(l.last()));
        }
    }
}

/// Lines without newlines, joined, split back into themselves and a last
/// empty piece.
proof fn lemma_split_join(ls: Seq<Seq<char>>)
    requires
        forall|i: int| 0 <= i < ls.len() ==> !has_char(#[trigger] ls[i], '\n'),
    ensures
        split_on(join_lines(ls), '\n') == ls.push(Seq::empty()),
    decreases ls.len(),
{
    reveal_strlit("\n");
    if ls.len() == 0 {
        assert(split_on(Seq::<char>::empty(), '\n') =~= seq![Seq::<char>::empty()]);
        assert(ls.push(Seq::empty()) =~= seq![Seq::<char>::empty()]);
    } else {
        let d = ls.drop_last();
        assert forall|i: int| 0 <= i < d.len() implies !has_char(#[trigger] d[i], '\n') by {
            assert(d[i] == ls[i]);
        }
        lemma_split_join(d);
        let x = join_lines(d) + ls.last();
        assert(!has_char(ls.last(), '\n')) by {
            assert(ls[ls.len() - 1] == ls.last());
        }
        lemma_split_extend(join_lines(d), ls.last(), '\n');
        assert(split_on(x, '\n') =~= d.push(ls.last())) by {
            assert(d.push(Seq::empty()).last() + ls.last() =~= ls.last());
        }
        assert(join_lines(ls) =~= x.push('\n'));
        assert(x.push('\n').drop_last() =~= x);
        assert(d.push(ls.last()) =~= ls);
    }
}

/// The `[name]` line of a section.
pub open spec fn header_line(name: Seq<char>) -> Seq<char> {
    "["@ + name + "]"@
}

/// The `key = value` line of an entry.
pub open spec fn entry_line(key: Seq<char>, value: Seq<char>) -> Seq<char> {
    key + " = "@ + value
}

/// The `key = value` lines of entries, in order.
pub open spec fn entry_lines(es: Seq<(Seq<char>, Seq<char>)>) -> Seq<Seq<char>> {
    es.map_values(|e: (Seq<char>, Seq<char>)| entry_line(e.0, e.1))
}

/// A section's lines: its header, its entries, a blank line.
pub open spec fn section_lines(name: Seq<char>, es: Seq<(Seq<char>, Seq<char>)>) -> Seq<Seq<char>> {
    seq![header_line(name)] + entry_lines(es) + seq![Seq::<char>::empty()]
}

/// The lines of all sections in order.
pub open spec fn layout_lines(lay: Seq<(Seq<char>, Seq<(Seq<char>, Seq<char>)>)>) -> Seq<Seq<char>>
    decreases lay.len(),
{
    if lay.len() == 0 {
        Seq::empty()
    } else {
        layout_lines(lay.drop_last()) + section_lines(lay.last().0, lay.last().1)
    }
}

proof fn lemma_render_entries_lines(es: Seq<(Seq<char>, Seq<char>)>)
    ensures
        render_entries(es) == join_lines(entry_lines(es)),
    decreases es.len(),
{
    if es.len() > 0 {
        lemma_render_entries_lines(es.drop_last());
        assert(entry_lines(es).drop_last() =~= entry_lines(es.drop_last()));
        assert(entry_lines(es).last() == entry_line(es.last().0, es.last().1));
        assert(render_entries(es) =~= join_lines(entry_lines(es)));
    } else {
        assert(entry_lines(es) =~= Seq::<Seq<char>>::empty());
    }
}

/// The text is the lines of the layout, each followed by a newline.
proof fn lemma_render_lines(lay: Seq<(Seq<char>, Seq<(Seq<char>, Seq<char>)>)>)
    ensures
        render_sections(lay) == join_lines(layout_lines(lay)),
    decreases lay.len(),
{
    reveal_strlit("]\n");
    reveal_strlit("]");
    reveal_strlit("\n");
    if lay.len() > 0 {
        lemma_render_lines(lay.drop_last());
        let (name, es) = lay.last();
        lemma_render_entries_lines(es);
        let h: Seq<Seq<char>> = seq![header_line(name)];
        let e = entry_lines(es);
        let z: Seq<Seq<char>> = seq![Seq::<char>::empty()];
        lemma_join_append(h, e);
        lemma_join_append(h + e, z);
        lemma_join_append(layout_lines(lay.drop_last()), section_lines(name, es));
        assert(h.drop_last() =~= Seq::<Seq<char>>::empty());
        assert(z.drop_last() =~= Seq::<Seq<char>>::empty());
        assert(join_lines(h.drop_last()) == Seq::<char>::empty());
        assert(join_lines(z.drop_last()) == Seq::<char>::empty());
        assert(h.last() == header_line(name));
        assert(z.last() == Seq::<char>::empty());
        assert(join_lines(h) =~= header_line(name) + "\n"@);
        assert(join_lines(z) =~= "\n"@);
        assert("]\n"@ =~= "]"@ + "\n"@);
        assert(render_sections(lay) =~= join_lines(layout_lines(lay)));
    }
}

/// Neither end of `s` is white space.
pub open spec fn plain_ends(s: Seq<char>) -> bool {
    s.len() == 0 || (!is_white_space(s[0]) && !is_white_space(s.last()))
}

/// A section name that can be written as `[name]` and read back.
pub open spec fn printable_name(n: Seq<char>) -> bool {
    n.len() > 0 && plain_ends(n) && !has_char(n, '\n')
}

/// A key that can be written as `key = ...` and read back: not empty, no
/// white space at its ends, no newline or `=`, not starting like a comment.
pub open spec fn printable_key(k: Seq<char>) -> bool {
    &&& k.len() > 0
    &&& plain_ends(k)
    &&& !has_char(k, '\n')
    &&& !has_char(k, '=')
    &&& k[0] != '#'
}

/// A value that can be written after `key = ` and read back: no white space
/// at its ends, no newline, not wrapped in quotes.
pub open spec fn printable_value(v: Seq<char>) -> bool {
    plain_ends(v) && !has_char(v, '\n') && !is_quoted(v)
}

/// An entry whose line can be read back: a printable key and value, and
/// not a line that looks like a header (a key starting with `[` and a value
/// ending with `]`).
pub open spec fn printable_entry(k: Seq<char>, v: Seq<char>) -> bool {
    &&& printable_key(k)
    &&& printable_value(v)
    &&& !(k[0] == '[' && v.len() > 0 && v.last() == ']')
}

/// Every entry can be written and read back.
pub open spec fn printable_entries(es: Seq<(Seq<char>, Seq<char>)>) -> bool {
    forall|j: int| 0 <= j < es.len() ==> printable_entry(#[trigger] es[j].0, es[j].1)
}

/// Every name, key and value of the layout can be written and read back.
pub open spec fn printable_layout(lay: Seq<(Seq<char>, Seq<(Seq<char>, Seq<char>)>)>) -> bool {
    forall|i: int| 0 <= i < lay.len() ==> printable_name(#[trigger] lay[i].0) && printable_entries(lay[i].1)
}

proof fn lemma_trim_plain(s: Seq<char>)
    requires
        plain_ends(s),
    ensures
        trim(s) == s,
{
    if s.len() > 0 {
        assert(trim_start(s) == s);
        assert(trim_end(s) == s);
    } else {
        assert(trim_start(s) == s);
        assert(trim_end(s) == s);
    }
}

proof fn lemma_first_position(t: Seq<char>, c: char, e: int)
    requires
        0 <= e < t.len(),
        t[e] == c,
        forall|j: int| 0 <= j < e ==> t[j] != c,
    ensures
        has_char(t, c),
        first_position(t, c) == e,
{
    assert(has_char(t, c));
    let f = first_position(t, c);
    assert(0 <= f < t.len() && t[f] == c && forall|j: int| 0 <= j < f ==> t[j] != c);
    if f < e {
    } else if f > e {
        assert(t[e] != c);
    }
}

proof fn lemma_header_kind(n: Seq<char>)
    requires
        printable_name(n),
    ensures
        line_kind(header_line(n)) == LineKind::Header(n),
        !has_char(header_line(n), '\n'),
{
    reveal_strlit("[");
    reveal_strlit("]");
    let line = header_line(n);
    assert(line.len() == n.len() + 2);
    assert(line[0] == '[');
    assert(line.last() == ']');
    lemma_trim_plain(line);
    assert(line.subrange(1, line.len() - 1) =~= n);
    lemma_trim_plain(n);
    assert(!has_char(line, '\n')) by {
        if has_char(line, '\n') {
            let i = choose|i: int| 0 <= i < line.len() && line[i] == '\n';
            assert(n[i - 1] == '\n');
        }
    }
}

proof fn lemma_entry_kind(k: Seq<char>, v: Seq<char>)
    requires
        printable_entry(k, v),
    ensures
        line_kind(entry_line(k, v)) == LineKind::Pair(k, v),
        !has_char(entry_line(k, v), '\n'),
{
    reveal_strlit(" = ");
    let line = entry_line(k, v);
    let m = k.len() as int;
    assert(line.len() == m + 3 + v.len());
    assert forall|j: int| 0 <= j < m implies line[j] == k[j] by {}
    assert(line[m] == ' ');
    assert(line[m + 1] == '=');
    assert(line[m + 2] == ' ');
    assert forall|j: int| 0 <= j < v.len() implies line[m + 3 + j] == v[j] by {}
    let t = trim(line);
    let t_len: int = if v.len() > 0 { line.len() as int } else { m + 2 };
    assert(t == line.take(t_len)) by {
        if v.len() > 0 {
            assert(line.last() == v.last());
            lemma_trim_plain(line);
            assert(line.take(t_len) =~= line);
        } else {
            assert(trim_start(line) == line);
            let d = line.drop_last();
            assert(d.last() == '=');
            assert(trim_end(d) == d);
            assert(trim_end(line) == trim_end(d));
            assert(d =~= line.take(t_len));
        }
    }
    assert(t[0] == k[0]);
    assert(t.len() > 0);
    assert forall|j: int| 0 <= j < m + 1 implies t[j] != '=' by {
        if j < m {
            assert(t[j] == k[j]);
            if k[j] == '=' {
                assert(has_char(k, '='));
            }
        }
    }
    lemma_first_position(t, '=', m + 1);
    let before = t.take(m + 1);
    let after = t.skip(m + 2);
    assert(trim(before) == k) by {
        assert(trim_start(before) == before);
        assert(before.drop_last() =~= k);
        assert(trim_end(before) == trim_end(k));
        assert(trim_end(k) == k);
    }
    assert(trim(after) == v) by {
        if v.len() > 0 {
            assert(after.drop_first() =~= v);
            assert(trim_start(after) == trim_start(v));
            lemma_trim_plain(v);
            assert(trim_start(v) == v);
        } else {
            assert(after =~= v);
            lemma_trim_plain(v);
        }
    }
    assert(!has_char(line, '\n')) by {
        if has_char(line, '\n') {
            let i = choose|i: int| 0 <= i < line.len() && line[i] == '\n';
            if i < m {
                assert(k[i] == '\n');
            } else if i >= m + 3 {
                assert(v[i - m - 3] == '\n');
            }
        }
    }
}

/// A line that the reader takes without error.
pub open spec fn good_kind(k: LineKind) -> bool {
    k is Blank || k is Header || k is Pair
}

/// What one line does to the reader's section and configuration.
pub open spec fn read_step(k: LineKind, st: (Seq<char>, ConfigMap)) -> (Seq<char>, ConfigMap) {
    match k {
        LineKind::Header(name) => (
            name,
            if st.1.dom().contains(name) {
                st.1
            } else {
                st.1.insert(name, Map::empty())
            },
        ),
        LineKind::Pair(key, value) => (
            st.0,
            st.1.insert(st.0, section_of(st.1, st.0).insert(key, value)),
        ),
        _ => st,
    }
}

/// The reader's section and configuration after the lines `ls`.
pub open spec fn read_all(ls: Seq<Seq<char>>, st: (Seq<char>, ConfigMap)) -> (Seq<char>, ConfigMap)
    decreases ls.len(),
{
    if ls.len() == 0 {
        st
    } else {
        read_step(line_kind(ls.last()), read_all(ls.drop_last(), st))
    }
}

proof fn lemma_read_all_append(a: Seq<Seq<char>>, b: Seq<Seq<char>>, st: (Seq<char>, ConfigMap))
    ensures
        read_all(a + b, st) == read_all(b, read_all(a, st)),
    decreases b.len(),
{
    if b.len() == 0 {
        assert(a + b =~= a);
    } else {
        lemma_read_all_append(a, b.drop_last(), st);
        assert((a + b).drop_last() =~= a + b.drop_last());
        assert((a + b).last() == b.last());
    }
}

proof fn lemma_parse_good_lines(ls: Seq<Seq<char>>, k: int, st: (Seq<char>, ConfigMap))
    requires
        0 <= k <= ls.len(),
        forall|i: int| 0 <= i < ls.len() ==> good_kind(line_kind(#[trigger] ls[i])),
    ensures
        parse_lines(ls, k, read_all(ls.take(k), st).0, read_all(ls.take(k), st).1)
            == ConfigOutcome::Parsed(read_all(ls, st).1),
    decreases ls.len() - k,
{
    if k == ls.len() {
        assert(ls.take(k) =~= ls);
    } else {
        let cur = read_all(ls.take(k), st);
        assert(ls.take(k + 1).drop_last() =~= ls.take(k));
        assert(ls.take(k + 1).last() == ls[k]);
        assert(good_kind(line_kind(ls[k])));
        lemma_parse_good_lines(ls, k + 1, st);
    }
}

/// The model that a layout stands for.
pub open spec fn layout_model(lay: Seq<(Seq<char>, Seq<(Seq<char>, Seq<char>)>)>) -> Seq<(Seq<char>, Map<Seq<char>, Seq<char>>)> {
    lay.map_values(|p: (Seq<char>, Seq<(Seq<char>, Seq<char>)>)| (p.0, keyed_map(p.1)))
}

/// Adding a pair whose key is above all others to an ascending sequence.
proof fn lemma_keyed_map_push<X>(s: Seq<(Seq<char>, X)>)
    requires
        keys_ascending(s),
        s.len() > 0,
    ensures
        keys_ascending(s.drop_last()),
        keyed_map(s) == keyed_map(s.drop_last()).insert(s.last().0, s.last().1),
        !keyed_map(s.drop_last()).dom().contains(s.last().0),
{
    let d = s.drop_last();
    let n = d.len() as int;
    assert(keys_ascending(d)) by {
        assert forall|a: int, b: int| 0 <= a < b < d.len() implies seq_less(
            #[trigger] d[a].0,
            #[trigger] d[b].0,
        ) by {
            assert(d[a] == s[a]);
            assert(d[b] == s[b]);
        }
    }
    assert forall|j: int| 0 <= j < n implies seq_less(#[trigger] d[j].0, s.last().0) by {
        assert(d[j] == s[j]);
        assert(s[n] == s.last());
    }
    lemma_keyed_map_insert(d, n, s.last().0, s.last().1);
    assert(d.insert(n, (s.last().0, s.last().1)) =~= s);
    if has_key(d, s.last().0) {
        let q = choose|q: int| 0 <= q < d.len() && #[trigger] d[q].0 == s.last().0;
        crate::text::lemma_seq_less_trichotomy(s.last().0, s.last().0);
        assert(seq_less(d[q].0, s.last().0));
    }
}

proof fn lemma_read_entries(name: Seq<char>, es: Seq<(Seq<char>, Seq<char>)>, m: ConfigMap)
    requires
        printable_entries(es),
        keys_ascending(es),
    ensures
        read_all(entry_lines(es), (name, m.insert(name, Map::empty()))) == (
            name,
            m.insert(name, keyed_map(es)),
        ),
    decreases es.len(),
{
    if es.len() == 0 {
        crate::config::lemma_keyed_map_empty(es);
        assert(entry_lines(es) =~= Seq::<Seq<char>>::empty());
    } else {
        let d = es.drop_last();
        lemma_keyed_map_push(es);
        assert(printable_entries(d)) by {
            assert forall|j: int| 0 <= j < d.len() implies printable_entry(#[trigger] d[j].0, d[j].1) by {
                assert(d[j] == es[j]);
            }
        }
        lemma_read_entries(name, d, m);
        assert(entry_lines(es).drop_last() =~= entry_lines(d));
        assert(entry_lines(es).last() == entry_line(es.last().0, es.last().1));
        assert(printable_entry(es[es.len() - 1].0, es[es.len() - 1].1));
        lemma_entry_kind(es.last().0, es.last().1);
        let m1 = m.insert(name, keyed_map(d));
        assert(section_of(m1, name) == keyed_map(d));
        assert(m1.insert(name, keyed_map(d).insert(es.last().0, es.last().1)) =~= m.insert(
            name,
            keyed_map(es),
        ));
    }
}

proof fn lemma_read_section(
    name: Seq<char>,
    es: Seq<(Seq<char>, Seq<char>)>,
    st: (Seq<char>, ConfigMap),
)
    requires
        printable_name(name),
        printable_entries(es),
        keys_ascending(es),
        !st.1.dom().contains(name),
    ensures
        read_all(section_lines(name, es), st) == (name, st.1.insert(name, keyed_map(es))),
{
    let h: Seq<Seq<char>> = seq![header_line(name)];
    let e = entry_lines(es);
    let z: Seq<Seq<char>> = seq![Seq::<char>::empty()];
    lemma_read_all_append(h + e, z, st);
    lemma_read_all_append(h, e, st);
    lemma_header_kind(name);
    assert(h.drop_last() =~= Seq::<Seq<char>>::empty());
    assert(read_all(h.drop_last(), st) == st);
    assert(h.last() == header_line(name));
    assert(read_all(h, st) == (name, st.1.insert(name, Map::empty())));
    lemma_read_entries(name, es, st.1);
    assert(z.drop_last() =~= Seq::<Seq<char>>::empty());
    assert(trim(Seq::<char>::empty()) == Seq::<char>::empty()) by {
        lemma_trim_plain(Seq::<char>::empty());
    }
    assert(z.last() == Seq::<char>::empty());
    assert(line_kind(z.last()) is Blank);
    let mid = read_all(h + e, st);
    assert(read_all(z.drop_last(), mid) == mid);
    assert(read_all(z, mid) == mid);
}

proof fn lemma_read_layout(lay: Seq<(Seq<char>, Seq<(Seq<char>, Seq<char>)>)>)
    requires
        keys_ascending(lay),
        printable_layout(lay),
        forall|i: int| 0 <= i < lay.len() ==> keys_ascending(#[trigger] lay[i].1),
    ensures
        read_all(layout_lines(lay), (Seq::empty(), Map::empty())).1 == keyed_map(layout_model(lay)),
    decreases lay.len(),
{
    let st0: (Seq<char>, ConfigMap) = (Seq::empty(), Map::empty());
    let lm = layout_model(lay);
    assert(keys_ascending(lm)) by {
        assert forall|a: int, b: int| 0 <= a < b < lm.len() implies seq_less(
            #[trigger] lm[a].0,
            #[trigger] lm[b].0,
        ) by {
            assert(lm[a].0 == lay[a].0);
            assert(lm[b].0 == lay[b].0);
        }
    }
    if lay.len() == 0 {
        crate::config::lemma_keyed_map_empty(lm);
        assert(layout_lines(lay) == Seq::<Seq<char>>::empty());
    } else {
        let d = lay.drop_last();
        let (name, es) = lay.last();
        assert(keys_ascending(d)) by {
            assert forall|a: int, b: int| 0 <= a < b < d.len() implies seq_less(
                #[trigger] d[a].0,
                #[trigger] d[b].0,
            ) by {
                assert(d[a] == lay[a]);
                assert(d[b] == lay[b]);
            }
        }
        assert(printable_layout(d)) by {
            assert forall|i: int| 0 <= i < d.len() implies printable_name(#[trigger] d[i].0)
                && printable_entries(d[i].1) by {
                assert(d[i] == lay[i]);
            }
        }
        assert forall|i: int| 0 <= i < d.len() implies keys_ascending(#[trigger] d[i].1) by {
            assert(d[i] == lay[i]);
        }
        lemma_read_layout(d);
        lemma_read_all_append(layout_lines(d), section_lines(name, es), st0);
        lemma_keyed_map_push(lm);
        assert(lm.drop_last() =~= layout_model(d));
        assert(lm.last() == (name, keyed_map(es)));
        assert(lay[lay.len() - 1] == lay.last());
        lemma_read_section(name, es, read_all(layout_lines(d), st0));
    }
}

proof fn lemma_layout_lines_good(lay: Seq<(Seq<char>, Seq<(Seq<char>, Seq<char>)>)>)
    requires
        printable_layout(lay),
    ensures
        forall|i: int|
            0 <= i < layout_lines(lay).len() ==> !has_char(#[trigger] layout_lines(lay)[i], '\n')
                && good_kind(line_kind(layout_lines(lay)[i])),
    decreases lay.len(),
{
    if lay.len() > 0 {
        let d = lay.drop_last();
        let (name, es) = lay.last();
        assert(printable_layout(d)) by {
            assert forall|i: int| 0 <= i < d.len() implies printable_name(#[trigger] d[i].0)
                && printable_entries(d[i].1) by {
                assert(d[i] == lay[i]);
            }
        }
        lemma_layout_lines_good(d);
        assert(lay[lay.len() - 1] == lay.last());
        let a = layout_lines(d);
        let b = section_lines(name, es);
        assert(layout_lines(lay) == a + b);
        assert forall|i: int| 0 <= i < (a + b).len() implies !has_char(#[trigger] (a + b)[i], '\n')
            && good_kind(line_kind((a + b)[i])) by {
            if i < a.len() {
                assert((a + b)[i] == a[i]);
            } else {
                let j = i - a.len();
                assert((a + b)[i] == b[j]);
                if j == 0 {
                    lemma_header_kind(name);
                } else if j <= es.len() {
                    assert(b[j] == entry_line(es[j - 1].0, es[j - 1].1));
                    assert(printable_entry(es[j - 1].0, es[j - 1].1));
                    lemma_entry_kind(es[j - 1].0, es[j - 1].1);
                } else {
                    assert(b[j] == Seq::<char>::empty());
                    lemma_trim_plain(Seq::<char>::empty());
                }
            }
        }
    }
}

/// Reading back what a configuration prints gives the same configuration,
/// provided every section name, key and value can be written plainly (see
/// `printable_layout`): sections and keys come back with the same values.
pub proof fn lemma_write_then_read(c: &Config)
    requires
        c.wf(),
        printable_layout(c.layout()),
    ensures
        config_spec(render_sections(c.layout())) == ConfigOutcome::Parsed(c@),
{
    let lay = c.layout();
    let st0: (Seq<char>, ConfigMap) = (Seq::empty(), Map::empty());
    assert(c.model() =~= layout_model(lay));
    assert(keys_ascending(lay)) by {
        assert forall|a: int, b: int| 0 <= a < b < lay.len() implies seq_less(
            #[trigger] lay[a].0,
            #[trigger] lay[b].0,
        ) by {
            assert(lay[a].0 == c.model()[a].0);
            assert(lay[b].0 == c.model()[b].0);
        }
    }
    assert forall|i: int| 0 <= i < lay.len() implies keys_ascending(#[trigger] lay[i].1) by {
        assert(lay[i].1 == entries_view(c.sections@[i].1@));
    }
    lemma_read_layout(lay);
    lemma_render_lines(lay);
    lemma_layout_lines_good(lay);
    let ll = layout_lines(lay);
    lemma_split_join(ll);
    let ls = ll.push(Seq::<char>::empty());
    assert(split_lines(render_sections(lay)) == ls);
    assert forall|i: int| 0 <= i < ls.len() implies good_kind(line_kind(#[trigger] ls[i])) by {
        if i < ll.len() {
            assert(ls[i] == ll[i]);
        } else {
            assert(ls[i] == Seq::<char>::empty());
            lemma_trim_plain(Seq::<char>::empty());
        }
    }
    lemma_parse_good_lines(ls, 0, st0);
    assert(ls.take(0) =~= Seq::<Seq<char>>::empty());
    assert(ls.drop_last() =~= ll);
    assert(ls.last() == Seq::<char>::empty());
    lemma_trim_plain(Seq::<char>::empty());
    assert(read_all(ls, st0) == read_all(ll, st0));
}

} // verus!
