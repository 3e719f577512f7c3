//! Editing of an inline `style` attribute: one declaration is inserted or
//! replaced, the others are kept in order.
use vstd::prelude::*;

use crate::text::{chars_of, eq_ignore_ascii_case, push_char, push_chars};

verus! {

/// `char::is_whitespace`: the Unicode `White_Space` characters.
pub open spec fn is_whitespace(c: char) -> bool {
    ||| ('\t' <= c && c <= '\r')
    ||| c == ' '
    ||| c == '\u{85}'
    ||| c == '\u{a0}'
    ||| c == '\u{1680}'
    ||| ('\u{2000}' <= c && c <= '\u{200a}')
    ||| c == '\u{2028}'
    ||| c == '\u{2029}'
    ||| c == '\u{202f}'
    ||| c == '\u{205f}'
    ||| c == '\u{3000}'
}

fn whitespace(c: char) -> (b: bool)
    ensures
        b == is_whitespace(c),
{
    ('\t' <= c && c <= '\r') || c == ' ' || c == '\u{85}' || c == '\u{a0}' || c == '\u{1680}' || (
    '\u{2000}' <= c && c <= '\u{200a}') || c == '\u{2028}' || c == '\u{2029}' || c == '\u{202f}'
        || c == '\u{205f}' || c == '\u{3000}'
}

/// Leading whitespace removed.
pub open spec fn trim_start(s: Seq<char>) -> Seq<char>
    decreases s.len(),
{
    if s.len() > 0 && is_whitespace(s[0]) {
        trim_start(s.drop_first())
    } else {
        s
    }
}

/// Trailing whitespace removed.
pub open spec fn trim_end(s: Seq<char>) -> Seq<char>
    decreases s.len(),
{
    if s.len() > 0 && is_whitespace(s.last()) {
        trim_end(s.drop_last())
    } else {
        s
    }
}

/// `str::trim`.
pub open spec fn trim(s: Seq<char>) -> Seq<char> {
    trim_end(trim_start(s))
}

/// The text before the first `:` (all of it when there is none).
pub open spec fn before_colon(d: Seq<char>) -> Seq<char>
    decreases d.len(),
{
    if d.len() == 0 {
        d
    } else if d[0] == ':' {
        Seq::<char>::empty()
    } else {
        seq![d[0]] + before_colon(d.drop_first())
    }
}

/// The property a declaration sets: the trimmed text before its first `:`.
pub open spec fn property_of(d: Seq<char>) -> Seq<char> {
    trim(before_colon(d))
}

/// The state of the declaration splitter: the declarations finished so
/// far, the one being read, and the depth of open parentheses.
pub type SplitState = (Seq<Seq<char>>, Seq<char>, nat);

/// The splitter reads one character. A `;` ends a declaration only outside
/// parentheses (data: URLs hold semicolons); a `)` with none open leaves the
/// depth at zero.
pub open spec fn split_step(st: SplitState, c: char) -> SplitState {
    let (done, cur, depth) = st;
    if c == '(' {
        (done, cur.push(c), depth + 1)
    } else if c == ')' {
        (done, cur.push(c), if depth > 0 { (depth - 1) as nat } else { 0 })
    } else if c == ';' && depth == 0 {
        (done.push(cur), Seq::<char>::empty(), depth)
    } else {
        (done, cur.push(c), depth)
    }
}

/// The splitter's state after reading `s` from the state `st`.
pub open spec fn split_from(st: SplitState, s: Seq<char>) -> SplitState
    decreases s.len(),
{
    if s.len() == 0 {
        st
    } else {
        split_step(split_from(st, s.drop_last()), s.last())
    }
}

/// The splitter's state after reading `s` from the start.
pub open spec fn split_state(s: Seq<char>) -> SplitState {
    split_from((Seq::<Seq<char>>::empty(), Seq::<char>::empty(), 0), s)
}

/// The declarations of an inline style, as split at top-level `;`.
pub open spec fn declarations(s: Seq<char>) -> Seq<Seq<char>> {
    split_state(s).0.push(split_state(s).1)
}

/// A declaration survives the edit unless it is blank or sets `name`
/// (compared ignoring ASCII case).
pub open spec fn kept(d: Seq<char>, name: Seq<char>) -> bool {
    trim(d).len() != 0 && !eq_ignore_ascii_case(property_of(d), name)
}

pub open spec fn keep_decls(ds: Seq<Seq<char>>, name: Seq<char>) -> Seq<Seq<char>>
    decreases ds.len(),
{
    if ds.len() == 0 {
        ds
    } else if kept(ds.last(), name) {
        keep_decls(ds.drop_last(), name).push(ds.last())
    } else {
        keep_decls(ds.drop_last(), name)
    }
}

/// The declarations joined by `; `.
pub open spec fn join_decls(ds: Seq<Seq<char>>) -> Seq<char>
    decreases ds.len(),
{
    if ds.len() == 0 {
        Seq::<char>::empty()
    } else if ds.len() == 1 {
        ds[0]
    } else {
        join_decls(ds.drop_last()) + seq![';', ' '] + ds.last()
    }
}

/// The declaration `name: value`.
pub open spec fn declaration(name: Seq<char>, value: Seq<char>) -> Seq<char> {
    name + seq![':', ' '] + value
}

/// The edited style: the kept declarations, then `name: value`, joined by `; `.
pub open spec fn upserted(current: Seq<char>, name: Seq<char>, value: Seq<char>) -> Seq<char> {
    join_decls(keep_decls(declarations(current), name).push(declaration(name, value)))
}

pub open spec fn decls_view(v: Seq<Vec<char>>) -> Seq<Seq<char>> {
    v.map_values(|d: Vec<char>| d@)
}

fn split_declarations(s: &Vec<char>) -> (ds: Vec<Vec<char>>)
    ensures
        decls_view(ds@) == declarations(s@),
{
    let mut done: Vec<Vec<char>> = Vec::new();
    let mut cur: Vec<char> = Vec::new();
    let mut depth: usize = 0;
    let mut i: usize = 0;
    assert(s@.take(0) =~= Seq::<char>::empty());
    while i < s.len()
        invariant
            i <= s.len(),
            depth <= i,
            split_state(s@.take(i as int)) == (decls_view(done@), cur@, depth as nat),
        decreases s.len() - i,
    {
        let c = s[i];
        proof {
            assert(s@.take(i + 1).drop_last() =~= s@.take(i as int));
            assert(s@.take(i + 1).last() == c);
        }
        if c == '(' {
            depth = depth + 1;
            cur.push(c);
        } else if c == ')' {
            if depth > 0 {
                depth = depth - 1;
            }
            cur.push(c);
        } else if c == ';' && depth == 0 {
            let finished = cur;
            cur = Vec::new();
            done.push(finished);
            assert(decls_view(done@) =~= decls_view(done@.drop_last()).push(finished@));
        } else {
            cur.push(c);
        }
        i = i + 1;
    }
    assert(s@.take(s.len() as int) =~= s@);
    done.push(cur);
    assert(decls_view(done@) =~= decls_view(done@.drop_last()).push(done@.last()@));
    done
}

fn trimmed_bounds(d: &Vec<char>, end: usize) -> (r: (usize, usize))
    requires
        end <= d.len(),
    ensures
        r.0 <= r.1 <= end,
        trim(d@.take(end as int)) == d@.subrange(r.0 as int, r.1 as int),
{
    let ghost s = d@.take(end as int);
    let mut a: usize = 0;
    assert(s.skip(0) =~= s);
    while a < end && whitespace(d[a])
        invariant
            a <= end <= d.len(),
            s == d@.take(end as int),
            trim_start(s) == trim_start(s.skip(a as int)),
        decreases end - a,
    {
        assert(s.skip(a as int).drop_first() =~= s.skip(a + 1));
        a = a + 1;
    }
    assert(trim_start(s) == s.skip(a as int));
    let ghost t = s.skip(a as int);
    let mut b: usize = end;
    assert(t.take(t.len() as int) =~= t);
    while b > a && whitespace(d[b - 1])
        invariant
            a <= b <= end <= d.len(),
            s == d@.take(end as int),
            t == s.skip(a as int),
            trim_end(t) == trim_end(t.take(b - a)),
        decreases b - a,
    {
        assert(t.take(b - a).drop_last() =~= t.take(b - a - 1));
        assert(t.take(b - a).last() == d@[b - 1]);
        b = b - 1;
    }
    assert(t.take(b - a) =~= d@.subrange(a as int, b as int));
    (a, b)
}

fn colon_index(d: &Vec<char>) -> (k: usize)
    ensures
        k <= d.len(),
        before_colon(d@) == d@.take(k as int),
{
    let mut k: usize = 0;
    assert(d@.skip(0) =~= d@);
    assert(d@.take(0) =~= Seq::<char>::empty());
    while k < d.len() && d[k] != ':'
        invariant
            k <= d.len(),
            before_colon(d@) == d@.take(k as int) + before_colon(d@.skip(k as int)),
        decreases d.len() - k,
    {
        assert(d@.skip(k as int).drop_first() =~= d@.skip(k + 1));
        assert(d@.take(k + 1) =~= d@.take(k as int) + seq![d@[k as int]]);
        k = k + 1;
    }
    if k == d.len() {
        assert(d@.skip(k as int) =~= Seq::<char>::empty());
    }
    assert(d@.take(k as int) + Seq::<char>::empty() =~= d@.take(k as int));
    k
}

fn is_kept(d: &Vec<char>, name: &Vec<char>) -> (b: bool)
    ensures
        b == kept(d@, name@),
{
    let (a, e) = trimmed_bounds(d, d.len());
    assert(d@.take(d.len() as int) =~= d@);
    if a == e {
        return false;
    }
    let k = colon_index(d);
    let (p, q) = trimmed_bounds(d, k);
    let mut prop: Vec<char> = Vec::new();
    let mut j: usize = p;
    while j < q
        invariant
            p <= j <= q <= d.len(),
            prop@ == d@.subrange(p as int, j as int),
        decreases q - j,
    {
        prop.push(d[j]);
        j = j + 1;
    }
    !crate::text::chars_eq_ignore_ascii_case(&prop, name)
}

/// Inserts or replaces `name: value` in an inline style declaration list.
/// The list is split at `;` outside parentheses; blank declarations and
/// those already setting `name` (ignoring ASCII case) are dropped, the rest
/// keep their text and order, and `name: value` comes last, all joined by `; `.
pub fn upsert_style(current: &str, name: &str, value: &str) -> (res: String)
    ensures
        res@ == upserted(current@, name@, value@),
{
    let cs = chars_of(current);
    let nm = chars_of(name);
    let vl = chars_of(value);
    let ds = split_declarations(&cs);
    let ghost all = decls_view(ds@);
    let mut keep: Vec<Vec<char>> = Vec::new();
    let mut i: usize = 0;
    assert(all.take(0) =~= Seq::<Seq<char>>::empty());
    while i < ds.len()
        invariant
            all == decls_view(ds@),
            i <= ds.len(),
            decls_view(keep@) == keep_decls(all.take(i as int), nm@),
        decreases ds.len() - i,
    {
        proof {
            assert(all.take(i + 1).drop_last() =~= all.take(i as int));
            assert(all.take(i + 1).last() == ds@[i as int]@);
        }
        if is_kept(&ds[i], &nm) {
            let d = ds[i].clone();
            keep.push(d);
            assert(decls_view(keep@) =~= decls_view(keep@.drop_last()).push(d@));
        }
        i = i + 1;
    }
    assert(all.take(ds.len() as int) =~= all);
    let mut last = nm.clone();
    push_all(&mut last, &vec![':', ' ']);
    push_all(&mut last, &vl);
    keep.push(last);
    let ghost kv = decls_view(keep@);
    assert(kv =~= keep_decls(all, nm@).push(declaration(nm@, vl@)));
    let mut out = String::new();
    let mut j: usize = 0;
    assert(kv.take(0) =~= Seq::<Seq<char>>::empty());
    while j < keep.len()
        invariant
            kv == decls_view(keep@),
            j <= keep.len(),
            out@ == join_decls(kv.take(j as int)),
        decreases keep.len() - j,
    {
        proof {
            assert(kv.take(j + 1).drop_last() =~= kv.take(j as int));
            assert(kv.take(j + 1).last() == keep@[j as int]@);
            if j == 0 {
                assert(kv.take(1) =~= seq![keep@[0]@]);
            }
        }
        if j > 0 {
            push_char(&mut out, ';');
            push_char(&mut out, ' ');
        }
        push_chars(&mut out, &keep[j]);
        j = j + 1;
    }
    assert(kv.take(keep.len() as int) =~= kv);
    out
}

fn push_all(v: &mut Vec<char>, w: &Vec<char>)
    ensures
        final(v)@ == old(v)@ + w@,
{
    let ghost start = v@;
    for i in 0..w.len()
        invariant
            v@ == start + w@.take(i as int),
    {
        v.push(w[i]);
        assert(w@.take(i + 1) =~= w@.take(i as int).push(w@[i as int]));
    }
    assert(w@.take(w.len() as int) =~= w@);
}


/// A CSS property name as `set_style` accepts it: non-empty, ASCII letters,
/// digits and `-`.
pub open spec fn valid_property_name(n: Seq<char>) -> bool {
    n.len() > 0 && forall|i: int| 0 <= i < n.len() ==> (crate::text::is_ascii_alnum(#[trigger] n[i]) || n[i] == '-')
}

/// Checks an inline style property name before a `set_style` edit.
pub fn check_property_name(name: &str) -> (res: Result<(), crate::error::RenderError>)
    ensures
        valid_property_name(name@) ==> res is Ok,
        !valid_property_name(name@) ==> (res matches Err(crate::error::RenderError::CssProperty(m)) && m@ == name@),
{
    let n = chars_of(name);
    if n.len() == 0 {
        return Err(crate::error::RenderError::CssProperty(name.to_owned()));
    }
    let mut i: usize = 0;
    while i < n.len()
        invariant
            i <= n.len(),
            n@ == name@,
            forall|j: int| 0 <= j < i ==> (crate::text::is_ascii_alnum(#[trigger] n@[j]) || n@[j] == '-'),
        decreases n.len() - i,
    {
        let c = n[i];
        if !(crate::text::ascii_alnum(c) || c == '-') {
            return Err(crate::error::RenderError::CssProperty(name.to_owned()));
        }
        i = i + 1;
    }
    Ok(())
}

/// The parenthesis depth after reading one character.
pub open spec fn step_depth(d: nat, c: char) -> nat {
    if c == '(' {
        d + 1
    } else if c == ')' {
        if d > 0 { (d - 1) as nat } else { 0 }
    } else {
        d
    }
}

/// The parenthesis depth after reading `s` from depth `k`.
pub open spec fn depth_after(k: nat, s: Seq<char>) -> nat
    decreases s.len(),
{
    if s.len() == 0 {
        k
    } else {
        step_depth(depth_after(k, s.drop_last()), s.last())
    }
}

/// Reading `s` from depth `k`, no `;` is met outside parentheses.
pub open spec fn no_split_from(k: nat, s: Seq<char>) -> bool
    decreases s.len(),
{
    if s.len() == 0 {
        true
    } else {
        no_split_from(k, s.drop_last()) && !(s.last() == ';' && depth_after(k, s.drop_last()) == 0)
    }
}

/// A declaration that, read from outside parentheses, ends outside them
/// and holds no top-level `;`.
pub open spec fn closed_decl(d: Seq<char>) -> bool {
    no_split_from(0, d) && depth_after(0, d) == 0
}

/// The declarations as the joined text is split again: all but the first
/// carry the space that follows each `;`.
pub open spec fn spaced(ds: Seq<Seq<char>>) -> Seq<Seq<char>> {
    Seq::new(ds.len(), |i: int| if i == 0 { ds[0] } else { seq![' '] + ds[i] })
}

proof fn lemma_no_split(dn: Seq<Seq<char>>, c: Seq<char>, k: nat, s: Seq<char>)
    requires
        no_split_from(k, s),
    ensures
        split_from((dn, c, k), s) == (dn, c + s, depth_after(k, s)),
    decreases s.len(),
{
    if s.len() == 0 {
        assert(c + s =~= c);
    } else {
        lemma_no_split(dn, c, k, s.drop_last());
        assert(c + s =~= (c + s.drop_last()).push(s.last()));
    }
}

proof fn lemma_split_concat(st: SplitState, a: Seq<char>, b: Seq<char>)
    ensures
        split_from(st, a + b) == split_from(split_from(st, a), b),
    decreases b.len(),
{
    if b.len() == 0 {
        assert(a + b =~= a);
    } else {
        lemma_split_concat(st, a, b.drop_last());
        assert((a + b).drop_last() =~= a + b.drop_last());
        assert((a + b).last() == b.last());
    }
}

proof fn lemma_declarations_closed(s: Seq<char>)
    ensures
        forall|i: int| 0 <= i < split_state(s).0.len() ==> closed_decl(#[trigger] split_state(s).0[i]),
        no_split_from(0, split_state(s).1),
        depth_after(0, split_state(s).1) == split_state(s).2,
    decreases s.len(),
{
    if s.len() > 0 {
        lemma_declarations_closed(s.drop_last());
        let st = split_state(s.drop_last());
        let c = s.last();
        let cur = st.1;
        assert(cur.push(c).drop_last() =~= cur);
        assert(Seq::<char>::empty().len() == 0);
        if c == ';' && st.2 == 0 {
            assert forall|i: int| 0 <= i < split_state(s).0.len() implies closed_decl(#[trigger] split_state(s).0[i]) by {
                if i < st.0.len() {
                    assert(split_state(s).0[i] == st.0[i]);
                }
            }
        }
    }
}

proof fn lemma_plain_closed(s: Seq<char>)
    requires
        forall|i: int| 0 <= i < s.len() ==> #[trigger] s[i] != ';' && s[i] != '(' && s[i] != ')',
    ensures
        closed_decl(s),
    decreases s.len(),
{
    if s.len() > 0 {
        assert forall|i: int| 0 <= i < s.drop_last().len() implies #[trigger] s.drop_last()[i] != ';' && s.drop_last()[i]
            != '(' && s.drop_last()[i] != ')' by {
            assert(s.drop_last()[i] == s[i]);
        }
        lemma_plain_closed(s.drop_last());
        assert(s.last() == s[s.len() - 1]);
    }
}

proof fn lemma_kept_from(ds: Seq<Seq<char>>, name: Seq<char>)
    ensures
        forall|i: int| 0 <= i < keep_decls(ds, name).len() ==> kept(#[trigger] keep_decls(ds, name)[i], name)
            && ds.contains(keep_decls(ds, name)[i]),
    decreases ds.len(),
{
    if ds.len() > 0 {
        lemma_kept_from(ds.drop_last(), name);
        let k = keep_decls(ds.drop_last(), name);
        assert forall|i: int| 0 <= i < keep_decls(ds, name).len() implies kept(#[trigger] keep_decls(ds, name)[i], name)
            && ds.contains(keep_decls(ds, name)[i]) by {
            if i < k.len() {
                assert(keep_decls(ds, name)[i] == k[i]);
                let j = choose|j: int| 0 <= j < ds.drop_last().len() && ds.drop_last()[j] == k[i];
                assert(ds[j] == k[i]);
            } else {
                assert(ds[ds.len() - 1] == ds.last());
            }
        }
    }
}

proof fn lemma_join_reads_back(ds: Seq<Seq<char>>)
    requires
        ds.len() > 0,
        forall|i: int| 0 <= i < ds.len() - 1 ==> closed_decl(#[trigger] ds[i]),
        no_split_from(0, ds.last()),
    ensures
        split_state(join_decls(ds)) == (spaced(ds).drop_last(), spaced(ds).last(), depth_after(0, ds.last())),
    decreases ds.len(),
{
    let init = (Seq::<Seq<char>>::empty(), Seq::<char>::empty(), 0nat);
    if ds.len() == 1 {
        lemma_no_split(Seq::<Seq<char>>::empty(), Seq::<char>::empty(), 0, ds[0]);
        assert(Seq::<char>::empty() + ds[0] =~= ds[0]);
        assert(spaced(ds).drop_last() =~= Seq::<Seq<char>>::empty());
    } else {
        let p = ds.drop_last();
        assert forall|i: int| 0 <= i < p.len() - 1 implies closed_decl(#[trigger] p[i]) by {
            assert(p[i] == ds[i]);
        }
        assert(closed_decl(ds[ds.len() - 2]));
        assert(p.last() == ds[ds.len() - 2]);
        lemma_join_reads_back(p);
        let last = ds.last();
        let jp = join_decls(p);
        assert(join_decls(ds) =~= jp + (seq![';'] + (seq![' '] + last)));
        lemma_split_concat(init, jp, seq![';'] + (seq![' '] + last));
        let st1 = split_state(jp);
        lemma_split_concat(st1, seq![';'], seq![' '] + last);
        assert(seq![';'].drop_last() =~= Seq::<char>::empty());
        assert(split_from(st1, Seq::<char>::empty()) == st1);
        assert(seq![';'].last() == ';');
        let st2 = split_from(st1, seq![';']);
        assert(st2 == (spaced(p).drop_last().push(spaced(p).last()), Seq::<char>::empty(), 0nat));
        lemma_split_concat(st2, seq![' '], last);
        assert(seq![' '].drop_last() =~= Seq::<char>::empty());
        assert(split_from(st2, Seq::<char>::empty()) == st2);
        assert(seq![' '].last() == ' ');
        let st3 = split_from(st2, seq![' ']);
        assert(Seq::<char>::empty().push(' ') =~= seq![' ']);
        assert(st3 == (st2.0, seq![' '], 0nat));
        lemma_no_split(st2.0, seq![' '], 0, last);
        assert(spaced(p).drop_last().push(spaced(p).last()) =~= spaced(p));
        assert(spaced(ds).drop_last() =~= spaced(p));
        assert(spaced(ds).last() =~= seq![' '] + last);
    }
}

proof fn lemma_trim_start_space(s: Seq<char>)
    ensures
        trim_start(seq![' '] + s) == trim_start(s),
{
    assert((seq![' '] + s).drop_first() =~= s);
}

proof fn lemma_before_colon_space(s: Seq<char>)
    ensures
        before_colon(seq![' '] + s) == seq![' '] + before_colon(s),
{
    assert((seq![' '] + s).drop_first() =~= s);
}

proof fn lemma_before_colon_prefix(a: Seq<char>, b: Seq<char>)
    requires
        forall|i: int| 0 <= i < a.len() ==> #[trigger] a[i] != ':',
    ensures
        before_colon(a + seq![':'] + b) == a,
    decreases a.len(),
{
    if a.len() == 0 {
        assert(a + seq![':'] + b =~= seq![':'] + b);
    } else {
        let t = a.drop_first();
        assert forall|i: int| 0 <= i < t.len() implies #[trigger] t[i] != ':' by {
            assert(t[i] == a[i + 1]);
        }
        lemma_before_colon_prefix(t, b);
        assert((a + seq![':'] + b).drop_first() =~= t + seq![':'] + b);
        assert(a =~= seq![a[0]] + t);
    }
}

/// After `upsert_style(current, name, value)`, the style declares `name`
/// exactly once and last, with the value given: split again at top-level
/// `;`, the result gives the declarations kept from `current` (in order,
/// each but the first after the separator's space) and then
/// `name: value`. This holds for every name `set_style` accepts, unless
/// `value` holds a `;` outside parentheses, or `current` ends inside an open
/// parenthesis in a declaration that is kept (the new declaration is then
/// read as part of it).
pub proof fn law_upsert_declares_name_once_and_last(current: Seq<char>, name: Seq<char>, value: Seq<char>)
    requires
        split_state(current).2 == 0 || !kept(split_state(current).1, name),
        valid_property_name(name),
        no_split_from(0, value),
    ensures
        ({
            let kept_decls = keep_decls(declarations(current), name);
            let ds = declarations(upserted(current, name, value));
            &&& ds == spaced(kept_decls.push(declaration(name, value)))
            &&& ds.last() == (if kept_decls.len() == 0 {
                declaration(name, value)
            } else {
                seq![' '] + declaration(name, value)
            })
            &&& property_of(ds.last()) == name
            &&& forall|i: int| 0 <= i < ds.len() - 1 ==> !eq_ignore_ascii_case(property_of(#[trigger] ds[i]), name)
        }),
{
    let all = declarations(current);
    let k = keep_decls(all, name);
    let nd = declaration(name, value);
    let ds = k.push(nd);
    let st = split_state(current);
    lemma_declarations_closed(current);
    lemma_kept_from(all, name);
    let head = name + seq![':', ' '];
    assert forall|i: int| 0 <= i < head.len() implies #[trigger] head[i] != ';' && head[i] != '(' && head[i] != ')' by {
        if i < name.len() {
            assert(head[i] == name[i]);
            assert(crate::text::is_ascii_alnum(name[i]) || name[i] == '-');
        }
    }
    lemma_plain_closed(head);
    assert(nd =~= head + value);
    lemma_no_split_concat(head, value);
    assert forall|i: int| 0 <= i < ds.len() - 1 implies closed_decl(#[trigger] ds[i]) by {
        assert(ds[i] == k[i]);
        assert(all.contains(k[i]));
        let j = choose|j: int| 0 <= j < all.len() && all[j] == k[i];
        if j < st.0.len() {
            assert(all[j] == st.0[j]);
        } else {
            assert(all[j] == st.1);
            assert(kept(k[i], name));
        }
    }
    lemma_join_reads_back(ds);
    let r = upserted(current, name, value);
    assert(declarations(r) =~= spaced(ds));
    // the new declaration's property is the name itself
    assert forall|i: int| 0 <= i < name.len() implies #[trigger] name[i] != ':' by {
        assert(crate::text::is_ascii_alnum(name[i]) || name[i] == '-');
    }
    lemma_before_colon_prefix(name, seq![' '] + value);
    assert(nd =~= name + seq![':'] + (seq![' '] + value));
    assert(!is_whitespace(name[0])) by {
        assert(crate::text::is_ascii_alnum(name[0]) || name[0] == '-');
    }
    assert(!is_whitespace(name.last())) by {
        assert(crate::text::is_ascii_alnum(name[name.len() - 1]) || name[name.len() - 1] == '-');
    }
    assert(trim_start(name) == name);
    assert(trim_end(name) == name);
    if k.len() > 0 {
        lemma_before_colon_space(nd);
        lemma_trim_start_space(before_colon(nd));
    }
    assert forall|i: int| 0 <= i < declarations(r).len() - 1 implies !eq_ignore_ascii_case(
        property_of(#[trigger] declarations(r)[i]),
        name,
    ) by {
        assert(ds[i] == k[i]);
        assert(kept(k[i], name));
        if i > 0 {
            lemma_before_colon_space(k[i]);
            lemma_trim_start_space(before_colon(k[i]));
        }
    }
}

/// A prefix that ends outside parentheses, followed by a text without
/// top-level `;`, holds no top-level `;`.
proof fn lemma_no_split_concat(a: Seq<char>, b: Seq<char>)
    requires
        closed_decl(a),
        no_split_from(0, b),
    ensures
        no_split_from(0, a + b),
        depth_after(0, a + b) == depth_after(0, b),
    decreases b.len(),
{
    if b.len() == 0 {
        assert(a + b =~= a);
    } else {
        lemma_no_split_concat(a, b.drop_last());
        assert((a + b).drop_last() =~= a + b.drop_last());
        assert((a + b).last() == b.last());
    }
}

proof fn lemma_keep_contains(ds: Seq<Seq<char>>, name: Seq<char>, j: int)
    requires
        0 <= j < ds.len(),
        kept(ds[j], name),
    ensures
        keep_decls(ds, name).contains(ds[j]),
    decreases ds.len(),
{
    if j == ds.len() - 1 {
        let k = keep_decls(ds, name);
        assert(ds.last() == ds[j]);
        assert(k[k.len() - 1] == ds[j]);
    } else {
        let p = ds.drop_last();
        assert(p[j] == ds[j]);
        lemma_keep_contains(p, name, j);
        let kp = keep_decls(p, name);
        let i = choose|i: int| 0 <= i < kp.len() && kp[i] == ds[j];
        if kept(ds.last(), name) {
            assert(keep_decls(ds, name)[i] == ds[j]);
        }
    }
}

/// The edit keeps every other declaration: each declaration of the current
/// style that is not blank and sets a property other than `name` (compared
/// ignoring ASCII case, so one whose property merely starts with `name`
/// counts as other) is among the declarations the edited style keeps; and
/// every declaration kept is such a declaration of the current style.
pub proof fn law_upsert_keeps_other_declarations(current: Seq<char>, name: Seq<char>)
    ensures
        forall|j: int|
            0 <= j < declarations(current).len() && trim(#[trigger] declarations(current)[j]).len() != 0
                && !eq_ignore_ascii_case(property_of(declarations(current)[j]), name) ==> keep_decls(
                declarations(current),
                name,
            ).contains(declarations(current)[j]),
        forall|i: int|
            0 <= i < keep_decls(declarations(current), name).len() ==> {
                let d = #[trigger] keep_decls(declarations(current), name)[i];
                &&& declarations(current).contains(d)
                &&& trim(d).len() != 0
                &&& !eq_ignore_ascii_case(property_of(d), name)
            },
{
    let ds = declarations(current);
    assert forall|j: int|
        0 <= j < ds.len() && trim(#[trigger] ds[j]).len() != 0 && !eq_ignore_ascii_case(property_of(ds[j]), name)
            implies keep_decls(ds, name).contains(ds[j]) by {
        lemma_keep_contains(ds, name, j);
    }
    lemma_kept_from(ds, name);
}

/// Properties are compared whole: a property that `name` is a proper prefix
/// of is a different property.
pub proof fn law_longer_property_is_other(prop: Seq<char>, name: Seq<char>)
    requires
        prop.len() > name.len(),
    ensures
        !eq_ignore_ascii_case(prop, name),
{
}

} // verus!
