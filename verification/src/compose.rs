//! Composition of the final document: the user's extra CSS and CSS custom
//! properties are appended in a trailing `<style>` block so that they win
//! the cascade at equal specificity.
use vstd::multiset::Multiset;
use vstd::prelude::*;

use crate::error::RenderError;
use crate::text::{ascii_alnum, chars_of, is_ascii_alnum, push_char, push_chars, string_of};

verus! {

/// A CSS custom property as plain values: its name and its value.
pub type VarView = (Seq<char>, Seq<char>);

/// Lexicographic order of character strings, by code point (the order of
/// `String`'s `Ord`, which compares UTF-8 bytes).
pub open spec fn chars_lt(a: Seq<char>, b: Seq<char>) -> bool
    decreases a.len(),
{
    if b.len() == 0 {
        false
    } else if a.len() == 0 {
        true
    } else if a[0] != b[0] {
        a[0] < b[0]
    } else {
        chars_lt(a.drop_first(), b.drop_first())
    }
}

/// Inserts `x` into `s` before the first entry whose name is greater than `x`'s.
pub open spec fn insert_by_name(x: VarView, s: Seq<VarView>) -> Seq<VarView>
    decreases s.len(),
{
    if s.len() == 0 {
        seq![x]
    } else if chars_lt(x.0, s[0].0) {
        seq![x] + s
    } else {
        seq![s[0]] + insert_by_name(x, s.drop_first())
    }
}

/// The variables ordered by name.
pub open spec fn sort_by_name(s: Seq<VarView>) -> Seq<VarView>
    decreases s.len(),
{
    if s.len() == 0 {
        s
    } else {
        insert_by_name(s.last(), sort_by_name(s.drop_last()))
    }
}

/// A character allowed in a variable name.
pub open spec fn is_var_name_char(c: char) -> bool {
    is_ascii_alnum(c) || c == '-' || c == '_'
}

/// A non-empty name of ASCII letters, digits, `-` and `_`.
pub open spec fn valid_var_name(n: Seq<char>) -> bool {
    n.len() > 0 && forall|i: int| 0 <= i < n.len() ==> is_var_name_char(#[trigger] n[i])
}

/// The value holds a brace, which could close the `:root` rule early.
pub open spec fn has_brace(v: Seq<char>) -> bool {
    exists|i: int| 0 <= i < v.len() && (v[i] == '{' || v[i] == '}')
}

/// What is wrong with one variable.
pub enum VarFault {
    Name,
    Value,
}

pub open spec fn var_fault(p: VarView) -> Option<VarFault> {
    if !valid_var_name(p.0) {
        Some(VarFault::Name)
    } else if has_brace(p.1) {
        Some(VarFault::Value)
    } else {
        None
    }
}

/// The first variable, in the given order, that is refused: its name and why.
pub open spec fn first_fault(s: Seq<VarView>) -> Option<(Seq<char>, VarFault)>
    decreases s.len(),
{
    if s.len() == 0 {
        None
    } else {
        match var_fault(s[0]) {
            Some(f) => Some((s[0].0, f)),
            None => first_fault(s.drop_first()),
        }
    }
}

/// The declaration of one variable; `--` is put in front of a name that
/// does not already start with it.
pub open spec fn var_line(p: VarView) -> Seq<char> {
    let prefix = if p.0.len() >= 2 && p.0[0] == '-' && p.0[1] == '-' {
        Seq::<char>::empty()
    } else {
        seq!['-', '-']
    };
    seq![' ', ' '] + prefix + p.0 + seq![':', ' '] + p.1 + seq![';', '\n']
}

pub open spec fn var_lines(s: Seq<VarView>) -> Seq<char>
    decreases s.len(),
{
    if s.len() == 0 {
        Seq::<char>::empty()
    } else {
        var_lines(s.drop_last()) + var_line(s.last())
    }
}

/// The `:root` rule declaring the variables, in the given order.
pub open spec fn root_rule(s: Seq<VarView>) -> Seq<char> {
    seq![':', 'r', 'o', 'o', 't', ' ', '{', '\n'] + var_lines(s) + seq!['}', '\n']
}

/// The composed document. With neither extra CSS nor variables it is the
/// HTML itself; otherwise the HTML followed by one `<style>` element holding
/// the CSS (and a newline) and then the `:root` rule.
pub open spec fn composed(html: Seq<char>, css: Option<Seq<char>>, vars: Option<Seq<VarView>>) -> Seq<char> {
    if css is None && vars is None {
        html
    } else {
        let css_part = match css {
            Some(c) => c + seq!['\n'],
            None => Seq::<char>::empty(),
        };
        let vars_part = match vars {
            Some(s) => root_rule(s),
            None => Seq::<char>::empty(),
        };
        html + seq!['<', 's', 't', 'y', 'l', 'e', '>'] + css_part + vars_part + seq![
            '<',
            '/',
            's',
            't',
            'y',
            'l',
            'e',
            '>',
        ]
    }
}

/// The variables as plain values.
pub open spec fn vars_view(v: Seq<(String, String)>) -> Seq<VarView> {
    v.map_values(|p: (String, String)| (p.0@, p.1@))
}

pub open spec fn pairs_view(v: Seq<(Vec<char>, Vec<char>)>) -> Seq<VarView> {
    v.map_values(|p: (Vec<char>, Vec<char>)| (p.0@, p.1@))
}

pub open spec fn opt_str_view(o: Option<&str>) -> Option<Seq<char>> {
    match o {
        Some(s) => Some(s@),
        None => None,
    }
}

fn lex_lt(a: &Vec<char>, b: &Vec<char>) -> (r: bool)
    ensures
        r == chars_lt(a@, b@),
{
    let mut i: usize = 0;
    assert(a@.skip(0) =~= a@);
    assert(b@.skip(0) =~= b@);
    while i < a.len() && i < b.len() && a[i] == b[i]
        invariant
            i <= a.len(),
            i <= b.len(),
            chars_lt(a@, b@) == chars_lt(a@.skip(i as int), b@.skip(i as int)),
        decreases a.len() - i,
    {
        assert(a@.skip(i as int).drop_first() =~= a@.skip(i + 1));
        assert(b@.skip(i as int).drop_first() =~= b@.skip(i + 1));
        i = i + 1;
    }
    if i == b.len() {
        false
    } else if i == a.len() {
        true
    } else {
        a[i] < b[i]
    }
}

proof fn lemma_insert_at_first_greater(x: VarView, s: Seq<VarView>, pos: int)
    requires
        0 <= pos <= s.len(),
        forall|k: int| 0 <= k < pos ==> !chars_lt(x.0, #[trigger] s[k].0),
        pos < s.len() ==> chars_lt(x.0, s[pos].0),
    ensures
        insert_by_name(x, s) == s.insert(pos, x),
    decreases s.len(),
{
    if s.len() == 0 {
        assert(s.insert(pos, x) =~= seq![x]);
    } else if pos == 0 {
        assert(s.insert(0, x) =~= seq![x] + s);
    } else {
        let t = s.drop_first();
        assert forall|k: int| 0 <= k < pos - 1 implies !chars_lt(x.0, #[trigger] t[k].0) by {
            assert(t[k] == s[k + 1]);
        }
        lemma_insert_at_first_greater(x, t, pos - 1);
        assert(s.insert(pos, x) =~= seq![s[0]] + t.insert(pos - 1, x));
    }
}

/// No two variables share a name, as in a map from name to value.
pub open spec fn names_distinct(v: Seq<(String, String)>) -> bool {
    forall|i: int, j: int| 0 <= i < j < v.len() ==> #[trigger] v[i].0@ != #[trigger] v[j].0@
}

/// Composes the final HTML: the user's `css`, then the custom properties
/// `css_vars` declared on `:root` in name order, in a `<style>` element after
/// the document. Variables are checked in name order; the first with a name
/// outside `[A-Za-z0-9_-]` (or empty), or with a brace in its value, is refused.
pub fn compose_html(html: &str, css: Option<&str>, css_vars: Option<Vec<(String, String)>>) -> (res: Result<
    String,
    RenderError,
>)
    requires
        css_vars matches Some(v) ==> names_distinct(v@),
    ensures
        match css_vars {
            None => res matches Ok(out) && out@ == composed(html@, opt_str_view(css), None),
            Some(v) => {
                let sorted = sort_by_name(vars_view(v@));
                match first_fault(sorted) {
                    None => res matches Ok(out) && out@ == composed(html@, opt_str_view(css), Some(sorted)),
                    Some((n, VarFault::Name)) => res matches Err(RenderError::CssVariableName(m)) && m@ == n,
                    Some((n, VarFault::Value)) => res matches Err(RenderError::CssVariableValue(m)) && m@ == n,
                }
            },
        },
{
    if css.is_none() && css_vars.is_none() {
        return Ok(html.to_owned());
    }
    let mut style = String::new();
    match css {
        Some(c) => {
            style.append(c);
            push_char(&mut style, '\n');
        },
        None => {},
    }
    let ghost css_part = style@;
    let ghost vars_part = rule_of(css_vars);
    match &css_vars {
        None => {},
        Some(v) => {
            let pushed = push_root_rule(&mut style, v);
            match pushed {
                Ok(()) => {},
                Err(e) => {
                    return Err(e);
                },
            }
        },
    }
    assert(style@ == css_part + vars_part);
    let mut out = html.to_owned();
    proof {
        reveal_strlit("<style>");
        reveal_strlit("</style>");
    }
    out.append("<style>");
    out.append(style.as_str());
    out.append("</style>");
    Ok(out)
}

spec fn rule_of(css_vars: Option<Vec<(String, String)>>) -> Seq<char> {
    match css_vars {
        Some(v) => root_rule(sort_by_name(vars_view(v@))),
        None => Seq::<char>::empty(),
    }
}

/// Appends the `:root` rule declaring the variables in name order, or
/// refuses the first faulty one in that order.
fn push_root_rule(style: &mut String, v: &Vec<(String, String)>) -> (res: Result<(), RenderError>)
    ensures
        match first_fault(sort_by_name(vars_view(v@))) {
            None => res is Ok && final(style)@ == old(style)@ + root_rule(sort_by_name(vars_view(v@))),
            Some((n, VarFault::Name)) => res matches Err(RenderError::CssVariableName(m)) && m@ == n,
            Some((n, VarFault::Value)) => res matches Err(RenderError::CssVariableValue(m)) && m@ == n,
        },
{
    let sorted = sort_vars(v);
    let ghost sv = pairs_view(sorted@);
    proof {
        reveal_strlit(":root {\n");
    }
    style.append(":root {\n");
    let ghost head = style@;
    assert(head == old(style)@ + seq![':', 'r', 'o', 'o', 't', ' ', '{', '\n']);
    assert(sv.skip(0) =~= sv);
    assert(sv.take(0) =~= Seq::<VarView>::empty());
    let mut i: usize = 0;
    while i < sorted.len()
        invariant
            sv == pairs_view(sorted@),
            sv == sort_by_name(vars_view(v@)),
            i <= sorted.len(),
            first_fault(sv) == first_fault(sv.skip(i as int)),
            style@ == head + var_lines(sv.take(i as int)),
            head == old(style)@ + seq![':', 'r', 'o', 'o', 't', ' ', '{', '\n'],
        decreases sorted.len() - i,
    {
        let name = &sorted[i].0;
        let value = &sorted[i].1;
        let ghost p = sv[i as int];
        assert(p == (name@, value@));
        assert(sv.skip(i as int)[0] == p);
        assert(sv.skip(i as int).drop_first() =~= sv.skip(i + 1));
        if !check_var_name(name) {
            return Err(RenderError::CssVariableName(string_of(name)));
        }
        if check_has_brace(value) {
            return Err(RenderError::CssVariableValue(string_of(name)));
        }
        let ghost before = style@;
        push_char(style, ' ');
        push_char(style, ' ');
        if !(name.len() >= 2 && name[0] == '-' && name[1] == '-') {
            push_char(style, '-');
            push_char(style, '-');
        }
        push_chars(style, name);
        push_char(style, ':');
        push_char(style, ' ');
        push_chars(style, value);
        push_char(style, ';');
        push_char(style, '\n');
        assert(style@ =~= before + var_line(p));
        assert(sv.take(i + 1).drop_last() =~= sv.take(i as int));
        assert(sv.take(i + 1).last() == p);
        i = i + 1;
    }
    assert(sv.take(sorted.len() as int) =~= sv);
    assert(sv.skip(sorted.len() as int) =~= Seq::<VarView>::empty());
    push_char(style, '}');
    push_char(style, '\n');
    assert(style@ =~= old(style)@ + root_rule(sv));
    Ok(())
}

/// Orders the variables by name (insertion in input order).
fn sort_vars(v: &Vec<(String, String)>) -> (sorted: Vec<(Vec<char>, Vec<char>)>)
    ensures
        pairs_view(sorted@) == sort_by_name(vars_view(v@)),
{
    let mut sorted: Vec<(Vec<char>, Vec<char>)> = Vec::new();
    let ghost vv = vars_view(v@);
    for i in 0..v.len()
        invariant
            vv == vars_view(v@),
            pairs_view(sorted@) == sort_by_name(vv.take(i as int)),
    {
        let name = chars_of(v[i].0.as_str());
        let value = chars_of(v[i].1.as_str());
        let ghost x = (name@, value@);
        assert(x == vv[i as int]);
        let ghost s = pairs_view(sorted@);
        let mut pos: usize = 0;
        while pos < sorted.len() && !lex_lt(&name, &sorted[pos].0)
            invariant
                s == pairs_view(sorted@),
                pos <= sorted.len(),
                x.0 == name@,
                forall|k: int| 0 <= k < pos ==> !chars_lt(x.0, #[trigger] s[k].0),
            decreases sorted.len() - pos,
        {
            assert(s[pos as int].0 == sorted@[pos as int].0@);
            pos = pos + 1;
        }
        proof {
            if pos < sorted.len() {
                assert(s[pos as int].0 == sorted@[pos as int].0@);
            }
            lemma_insert_at_first_greater(x, s, pos as int);
            assert(vv.take(i + 1).drop_last() =~= vv.take(i as int));
            assert(vv.take(i + 1).last() == x);
        }
        sorted.insert(pos, (name, value));
        assert(pairs_view(sorted@) =~= s.insert(pos as int, x));
    }
    assert(vv.take(v.len() as int) =~= vv);
    sorted
}

fn check_var_name(n: &Vec<char>) -> (ok: bool)
    ensures
        ok == valid_var_name(n@),
{
    if n.len() == 0 {
        return false;
    }
    let mut i: usize = 0;
    while i < n.len()
        invariant
            i <= n.len(),
            forall|j: int| 0 <= j < i ==> is_var_name_char(#[trigger] n@[j]),
        decreases n.len() - i,
    {
        let c = n[i];
        if !(ascii_alnum(c) || c == '-' || c == '_') {
            return false;
        }
        i = i + 1;
    }
    true
}

fn check_has_brace(v: &Vec<char>) -> (b: bool)
    ensures
        b == has_brace(v@),
{
    let mut i: usize = 0;
    while i < v.len()
        invariant
            i <= v.len(),
            forall|j: int| 0 <= j < i ==> !(v@[j] == '{' || v@[j] == '}'),
        decreases v.len() - i,
    {
        if v[i] == '{' || v[i] == '}' {
            return true;
        }
        i = i + 1;
    }
    false
}


proof fn lemma_lt_irreflexive(a: Seq<char>)
    ensures
        !chars_lt(a, a),
    decreases a.len(),
{
    if a.len() > 0 {
        lemma_lt_irreflexive(a.drop_first());
    }
}

proof fn lemma_lt_asymmetric(a: Seq<char>, b: Seq<char>)
    requires
        chars_lt(a, b),
    ensures
        !chars_lt(b, a),
    decreases a.len(),
{
    if a.len() > 0 && b.len() > 0 && a[0] == b[0] {
        lemma_lt_asymmetric(a.drop_first(), b.drop_first());
    }
}

proof fn lemma_lt_transitive(a: Seq<char>, b: Seq<char>, c: Seq<char>)
    requires
        chars_lt(a, b),
        chars_lt(b, c),
    ensures
        chars_lt(a, c),
    decreases a.len(),
{
    if a.len() > 0 && b.len() > 0 && c.len() > 0 && a[0] == b[0] && b[0] == c[0] {
        lemma_lt_transitive(a.drop_first(), b.drop_first(), c.drop_first());
    }
}

proof fn lemma_lt_total(a: Seq<char>, b: Seq<char>)
    requires
        a != b,
    ensures
        chars_lt(a, b) || chars_lt(b, a),
    decreases a.len(),
{
    if a.len() > 0 && b.len() > 0 && a[0] == b[0] {
        if a.drop_first() == b.drop_first() {
            assert(a =~= seq![a[0]] + a.drop_first());
            assert(b =~= seq![b[0]] + b.drop_first());
        }
        lemma_lt_total(a.drop_first(), b.drop_first());
    } else if a.len() == 0 && b.len() == 0 {
        assert(a =~= b);
    }
}

/// Names strictly ascending along the sequence.
pub open spec fn ascending_by_name(s: Seq<VarView>) -> bool {
    forall|i: int, j: int| 0 <= i < j < s.len() ==> chars_lt(#[trigger] s[i].0, #[trigger] s[j].0)
}

/// No two variables share a name.
pub open spec fn distinct_names(s: Seq<VarView>) -> bool {
    forall|i: int, j: int| 0 <= i < s.len() && 0 <= j < s.len() && i != j ==> #[trigger] s[i].0 != #[trigger] s[j].0
}

proof fn lemma_insert_multiset(x: VarView, s: Seq<VarView>)
    ensures
        insert_by_name(x, s).to_multiset() == s.to_multiset().insert(x),
    decreases s.len(),
{
    broadcast use vstd::multiset::group_multiset_axioms;
    broadcast use vstd::seq_lib::group_to_multiset_ensures;

    if s.len() == 0 || chars_lt(x.0, s[0].0) {
        assert(seq![x] + s =~= s.insert(0, x));
    } else {
        let t = s.drop_first();
        lemma_insert_multiset(x, t);
        let it = insert_by_name(x, t);
        assert(seq![s[0]] + it =~= it.insert(0, s[0]));
        assert(s =~= t.insert(0, s[0]));
        assert((seq![s[0]] + it).to_multiset() =~= s.to_multiset().insert(x));
    }
}

proof fn lemma_insert_ascending(x: VarView, s: Seq<VarView>)
    requires
        ascending_by_name(s),
        forall|k: int| 0 <= k < s.len() ==> #[trigger] s[k].0 != x.0,
    ensures
        ascending_by_name(insert_by_name(x, s)),
    decreases s.len(),
{
    broadcast use vstd::multiset::group_multiset_axioms;
    broadcast use vstd::seq_lib::group_to_multiset_ensures;

    if s.len() == 0 {
    } else if chars_lt(x.0, s[0].0) {
        let r = seq![x] + s;
        assert forall|i: int, j: int| 0 <= i < j < r.len() implies chars_lt(#[trigger] r[i].0, #[trigger] r[j].0) by {
            if i == 0 {
                if j > 1 {
                    assert(chars_lt(s[0].0, s[j - 1].0));
                    lemma_lt_transitive(x.0, s[0].0, s[j - 1].0);
                }
            } else {
                assert(r[i] == s[i - 1] && r[j] == s[j - 1]);
            }
        }
    } else {
        let t = s.drop_first();
        assert(s[0].0 != x.0);
        lemma_lt_total(x.0, s[0].0);
        assert(chars_lt(s[0].0, x.0));
        assert forall|i: int, j: int| 0 <= i < j < t.len() implies chars_lt(#[trigger] t[i].0, #[trigger] t[j].0) by {
            assert(t[i] == s[i + 1] && t[j] == s[j + 1]);
        }
        assert forall|k: int| 0 <= k < t.len() implies #[trigger] t[k].0 != x.0 by {
            assert(t[k] == s[k + 1]);
        }
        lemma_insert_ascending(x, t);
        let it = insert_by_name(x, t);
        lemma_insert_multiset(x, t);
        let r = seq![s[0]] + it;
        assert forall|i: int, j: int| 0 <= i < j < r.len() implies chars_lt(#[trigger] r[i].0, #[trigger] r[j].0) by {
            if i == 0 {
                let e = it[j - 1];
                assert(it.to_multiset().count(e) > 0);
                if e != x {
                    assert(t.to_multiset().count(e) > 0);
                    assert(t.contains(e));
                    let k = choose|k: int| 0 <= k < t.len() && t[k] == e;
                    assert(t[k] == s[k + 1]);
                    assert(chars_lt(s[0].0, s[k + 1].0));
                }
            } else {
                assert(r[i] == it[i - 1] && r[j] == it[j - 1]);
            }
        }
    }
}

proof fn lemma_first_fault_none(s: Seq<VarView>)
    ensures
        first_fault(s) is None <==> forall|k: int| 0 <= k < s.len() ==> var_fault(#[trigger] s[k]) is None,
    decreases s.len(),
{
    if s.len() > 0 {
        lemma_first_fault_none(s.drop_first());
        assert forall|k: int| 1 <= k < s.len() implies s.drop_first()[k - 1] == #[trigger] s[k] by {}
        if forall|k: int| 0 <= k < s.drop_first().len() ==> var_fault(#[trigger] s.drop_first()[k]) is None {
            assert forall|k: int| 1 <= k < s.len() implies var_fault(#[trigger] s[k]) is None by {
                assert(s.drop_first()[k - 1] == s[k]);
            }
        }
    }
}

/// Which variables are accepted: the variables compose (in any order of the
/// list) exactly when every name is non-empty and made of ASCII letters,
/// ASCII digits, `-` and `_`, and no value holds a brace.
pub proof fn law_variables_accepted(s: Seq<VarView>)
    ensures
        first_fault(sort_by_name(s)) is None <==> forall|k: int|
            0 <= k < s.len() ==> {
                &&& (#[trigger] s[k]).0.len() > 0
                &&& forall|i: int|
                    0 <= i < s[k].0.len() ==> {
                        let c = #[trigger] s[k].0[i];
                        ||| '0' <= c <= '9'
                        ||| 'a' <= c <= 'z'
                        ||| 'A' <= c <= 'Z'
                        ||| c == '-'
                        ||| c == '_'
                    }
                &&& forall|i: int| 0 <= i < s[k].1.len() ==> #[trigger] s[k].1[i] != '{' && s[k].1[i] != '}'
            },
{
    broadcast use vstd::multiset::group_multiset_axioms;
    broadcast use vstd::seq_lib::group_to_multiset_ensures;

    let t = sort_by_name(s);
    law_sort_keeps_every_variable(s);
    lemma_first_fault_none(t);
    let good = |p: VarView| {
        &&& p.0.len() > 0
        &&& forall|i: int|
            0 <= i < p.0.len() ==> {
                let c = #[trigger] p.0[i];
                ||| '0' <= c <= '9'
                ||| 'a' <= c <= 'z'
                ||| 'A' <= c <= 'Z'
                ||| c == '-'
                ||| c == '_'
            }
        &&& forall|i: int| 0 <= i < p.1.len() ==> #[trigger] p.1[i] != '{' && p.1[i] != '}'
    };
    assert forall|p: VarView| #[trigger] var_fault(p) is None <==> good(p) by {
        if !has_brace(p.1) {
            assert forall|i: int| 0 <= i < p.1.len() implies #[trigger] p.1[i] != '{' && p.1[i] != '}' by {
                if p.1[i] == '{' || p.1[i] == '}' {
                    assert(has_brace(p.1));
                }
            }
        }
        if valid_var_name(p.0) {
            assert forall|i: int| 0 <= i < p.0.len() implies {
                let c = #[trigger] p.0[i];
                ||| '0' <= c <= '9'
                ||| 'a' <= c <= 'z'
                ||| 'A' <= c <= 'Z'
                ||| c == '-'
                ||| c == '_'
            } by {
                assert(is_var_name_char(p.0[i]));
            }
        }
    }
    if forall|k: int| 0 <= k < s.len() ==> good(#[trigger] s[k]) {
        assert forall|k: int| 0 <= k < t.len() implies var_fault(#[trigger] t[k]) is None by {
            let e = t[k];
            assert(t.to_multiset().count(e) > 0);
            assert(s.contains(e));
            let m = choose|m: int| 0 <= m < s.len() && s[m] == e;
            assert(good(s[m]));
        }
    }
    if first_fault(t) is None {
        assert forall|k: int| 0 <= k < s.len() implies good(#[trigger] s[k]) by {
            let e = s[k];
            assert(s.to_multiset().count(e) > 0);
            assert(t.contains(e));
            let m = choose|m: int| 0 <= m < t.len() && t[m] == e;
            assert(var_fault(t[m]) is None);
        }
    }
}

/// Ordering by name keeps every variable: the result is a permutation of
/// the input.
pub proof fn law_sort_keeps_every_variable(s: Seq<VarView>)
    ensures
        sort_by_name(s).to_multiset() == s.to_multiset(),
        sort_by_name(s).len() == s.len(),
    decreases s.len(),
{
    broadcast use vstd::multiset::group_multiset_axioms;
    broadcast use vstd::seq_lib::group_to_multiset_ensures;

    if s.len() > 0 {
        law_sort_keeps_every_variable(s.drop_last());
        lemma_insert_multiset(s.last(), sort_by_name(s.drop_last()));
        assert(s =~= s.drop_last().push(s.last()));
    }
    vstd::seq_lib::to_multiset_len(s);
    vstd::seq_lib::to_multiset_len(sort_by_name(s));
}

/// With distinct names, ordering by name gives strictly ascending names.
pub proof fn law_sort_ascends(s: Seq<VarView>)
    requires
        distinct_names(s),
    ensures
        ascending_by_name(sort_by_name(s)),
    decreases s.len(),
{
    broadcast use vstd::multiset::group_multiset_axioms;
    broadcast use vstd::seq_lib::group_to_multiset_ensures;

    if s.len() > 0 {
        let p = s.drop_last();
        assert forall|i: int, j: int| 0 <= i < p.len() && 0 <= j < p.len() && i != j implies #[trigger] p[i].0
            != #[trigger] p[j].0 by {
            assert(p[i] == s[i] && p[j] == s[j]);
        }
        law_sort_ascends(p);
        law_sort_keeps_every_variable(p);
        let sp = sort_by_name(p);
        assert forall|k: int| 0 <= k < sp.len() implies #[trigger] sp[k].0 != s.last().0 by {
            let e = sp[k];
            assert(sp.to_multiset().count(e) > 0);
            assert(p.contains(e));
            let m = choose|m: int| 0 <= m < p.len() && p[m] == e;
            assert(p[m] == s[m]);
            assert(s[m].0 != s[s.len() - 1].0);
        }
        lemma_insert_ascending(s.last(), sp);
    }
}

/// Names never decrease along the sequence.
pub open spec fn nondecreasing_by_name(s: Seq<VarView>) -> bool {
    forall|i: int, j: int| 0 <= i < j < s.len() ==> !chars_lt(#[trigger] s[j].0, #[trigger] s[i].0)
}

/// Two variables with the same name are the same variable (as with the
/// keys of a map).
pub open spec fn names_determine_vars(s: Seq<VarView>) -> bool {
    forall|i: int, j: int| 0 <= i < s.len() && 0 <= j < s.len() && #[trigger] s[i].0 == #[trigger] s[j].0 ==> s[i] == s[j]
}

proof fn lemma_insert_nondecreasing(x: VarView, s: Seq<VarView>)
    requires
        nondecreasing_by_name(s),
    ensures
        nondecreasing_by_name(insert_by_name(x, s)),
    decreases s.len(),
{
    broadcast use vstd::multiset::group_multiset_axioms;
    broadcast use vstd::seq_lib::group_to_multiset_ensures;

    if s.len() == 0 {
    } else if chars_lt(x.0, s[0].0) {
        let r = seq![x] + s;
        assert forall|i: int, j: int| 0 <= i < j < r.len() implies !chars_lt(#[trigger] r[j].0, #[trigger] r[i].0) by {
            if i == 0 {
                assert(r[j] == s[j - 1]);
                if chars_lt(s[j - 1].0, x.0) {
                    lemma_lt_transitive(s[j - 1].0, x.0, s[0].0);
                    if j - 1 == 0 {
                        lemma_lt_irreflexive(s[0].0);
                    }
                }
            } else {
                assert(r[i] == s[i - 1] && r[j] == s[j - 1]);
            }
        }
    } else {
        let t = s.drop_first();
        assert forall|i: int, j: int| 0 <= i < j < t.len() implies !chars_lt(#[trigger] t[j].0, #[trigger] t[i].0) by {
            assert(t[i] == s[i + 1] && t[j] == s[j + 1]);
        }
        lemma_insert_nondecreasing(x, t);
        let it = insert_by_name(x, t);
        lemma_insert_multiset(x, t);
        let r = seq![s[0]] + it;
        assert forall|i: int, j: int| 0 <= i < j < r.len() implies !chars_lt(#[trigger] r[j].0, #[trigger] r[i].0) by {
            if i == 0 {
                let e = it[j - 1];
                assert(it.to_multiset().count(e) > 0);
                if e != x {
                    assert(t.to_multiset().count(e) > 0);
                    assert(t.contains(e));
                    let k = choose|k: int| 0 <= k < t.len() && t[k] == e;
                    assert(t[k] == s[k + 1]);
                }
            } else {
                assert(r[i] == it[i - 1] && r[j] == it[j - 1]);
            }
        }
    }
}

/// Ordering by name gives names that never decrease.
pub proof fn law_sort_orders_by_name(s: Seq<VarView>)
    ensures
        nondecreasing_by_name(sort_by_name(s)),
    decreases s.len(),
{
    if s.len() > 0 {
        law_sort_orders_by_name(s.drop_last());
        lemma_insert_nondecreasing(s.last(), sort_by_name(s.drop_last()));
    }
}

proof fn lemma_nondecreasing_unique(a: Seq<VarView>, b: Seq<VarView>)
    requires
        nondecreasing_by_name(a),
        nondecreasing_by_name(b),
        names_determine_vars(a),
        a.to_multiset() == b.to_multiset(),
    ensures
        a == b,
    decreases a.len(),
{
    broadcast use vstd::multiset::group_multiset_axioms;
    broadcast use vstd::seq_lib::group_to_multiset_ensures;

    vstd::seq_lib::to_multiset_len(a);
    vstd::seq_lib::to_multiset_len(b);
    if a.len() == 0 || b.len() == 0 {
        assert(a =~= b);
    } else {
        assert(a.to_multiset().count(b[0]) > 0);
        assert(b.to_multiset().count(a[0]) > 0);
        assert(a.contains(b[0]));
        assert(b.contains(a[0]));
        let i = choose|i: int| 0 <= i < a.len() && a[i] == b[0];
        let j = choose|j: int| 0 <= j < b.len() && b[j] == a[0];
        if i > 0 {
            assert(!chars_lt(a[i].0, a[0].0));
        }
        if j > 0 {
            assert(!chars_lt(b[j].0, b[0].0));
        }
        if a[0].0 != b[0].0 {
            lemma_lt_total(a[0].0, b[0].0);
            if i == 0 {
                assert(a[0] == b[0]);
            }
            if j == 0 {
                assert(a[0] == b[0]);
            }
        }
        assert(a[i].0 == a[0].0);
        assert(a[0] == b[0]);
        assert(a.remove(0) =~= a.drop_first());
        assert(b.remove(0) =~= b.drop_first());
        assert(a.drop_first().to_multiset() == a.to_multiset().remove(a[0]));
        assert(b.drop_first().to_multiset() == b.to_multiset().remove(b[0]));
        let a1 = a.drop_first();
        let b1 = b.drop_first();
        assert forall|x: int, y: int| 0 <= x < y < a1.len() implies !chars_lt(#[trigger] a1[y].0, #[trigger] a1[x].0) by {
            assert(a1[x] == a[x + 1] && a1[y] == a[y + 1]);
        }
        assert forall|x: int, y: int| 0 <= x < y < b1.len() implies !chars_lt(#[trigger] b1[y].0, #[trigger] b1[x].0) by {
            assert(b1[x] == b[x + 1] && b1[y] == b[y + 1]);
        }
        assert forall|x: int, y: int| 0 <= x < a1.len() && 0 <= y < a1.len() && #[trigger] a1[x].0 == #[trigger] a1[y].0 implies a1[x]
            == a1[y] by {
            assert(a1[x] == a[x + 1] && a1[y] == a[y + 1]);
        }
        lemma_nondecreasing_unique(a1, b1);
        assert(a.len() == b.len());
        assert forall|k: int| 0 <= k < a.len() implies a[k] == b[k] by {
            if k > 0 {
                assert(a[k] == a1[k - 1]);
                assert(b[k] == b1[k - 1]);
            }
        }
        assert(a =~= b);
    }
}

/// The composed document does not depend on the order in which the
/// variables are given: any two orderings of the same variables (where a
/// name always comes with the same value, as with a map's keys) are sorted
/// to the same sequence, which alone decides what `compose_html` returns.
pub proof fn law_variable_order_is_irrelevant(p: Seq<VarView>, q: Seq<VarView>)
    requires
        names_determine_vars(p),
        p.to_multiset() == q.to_multiset(),
    ensures
        sort_by_name(p) == sort_by_name(q),
{
    broadcast use vstd::multiset::group_multiset_axioms;
    broadcast use vstd::seq_lib::group_to_multiset_ensures;

    law_sort_orders_by_name(p);
    law_sort_orders_by_name(q);
    law_sort_keeps_every_variable(p);
    law_sort_keeps_every_variable(q);
    let sp = sort_by_name(p);
    assert forall|x: int, y: int| 0 <= x < sp.len() && 0 <= y < sp.len() && #[trigger] sp[x].0 == #[trigger] sp[y].0 implies sp[x]
        == sp[y] by {
        assert(sp.to_multiset().count(sp[x]) > 0);
        assert(sp.to_multiset().count(sp[y]) > 0);
        assert(p.contains(sp[x]));
        assert(p.contains(sp[y]));
        let a = choose|a: int| 0 <= a < p.len() && p[a] == sp[x];
        let b = choose|b: int| 0 <= b < p.len() && p[b] == sp[y];
    }
    lemma_nondecreasing_unique(sp, sort_by_name(q));
}

} // verus!
