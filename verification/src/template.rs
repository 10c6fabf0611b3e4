//! Process templates: placeholders of the form `{{ name }}` in a template
//! text, the check that a process gives exactly the variables a template
//! uses, and the rendering of a template with those variables.
use crate::text::{char_is_ws, chars_of, is_ws, string_of, string_views};
use vstd::prelude::*;

verus! {

// ---------------------------------------------------------------------------
// The placeholder grammar

/// A character that may begin a variable name: an ASCII letter, `_` or `-`.
pub open spec fn name_start(c: char) -> bool {
    ('a' <= c && c <= 'z') || ('A' <= c && c <= 'Z') || c == '_' || c == '-'
}

/// A character that may continue a variable name: one that may begin it, or
/// an ASCII digit.
pub open spec fn name_char(c: char) -> bool {
    name_start(c) || ('0' <= c && c <= '9')
}

/// The first position at or after `i` that holds no whitespace.
pub open spec fn skip_ws(s: Seq<char>, i: int) -> int
    decreases s.len() - i,
{
    if 0 <= i < s.len() && is_ws(s[i]) {
        skip_ws(s, i + 1)
    } else {
        i
    }
}

/// The first position at or after `i` that holds no name character.
pub open spec fn skip_name(s: Seq<char>, i: int) -> int
    decreases s.len() - i,
{
    if 0 <= i < s.len() && name_char(s[i]) {
        skip_name(s, i + 1)
    } else {
        i
    }
}

/// The placeholder that starts at `i`, if one does: `{{`, optional
/// whitespace, a name, optional whitespace and `}}`. The result gives where
/// the name starts, where it ends, and where the placeholder ends.
pub open spec fn placeholder_at(s: Seq<char>, i: int) -> Option<(int, int, int)> {
    if 0 <= i && i + 1 < s.len() && s[i] == '{' && s[i + 1] == '{' {
        let a = skip_ws(s, i + 2);
        if a < s.len() && name_start(s[a]) {
            let b = skip_name(s, a + 1);
            let c = skip_ws(s, b);
            if c < s.len() && s.len() - c > 1 && s[c] == '}' && s[c + 1] == '}' {
                Some((a, b, c + 2))
            } else {
                None
            }
        } else {
            None
        }
    } else {
        None
    }
}

proof fn lemma_skip_ws(s: Seq<char>, i: int)
    requires
        0 <= i <= s.len(),
    ensures
        i <= skip_ws(s, i) <= s.len(),
        forall|j: int| i <= j < skip_ws(s, i) ==> is_ws(#[trigger] s[j]),
    decreases s.len() - i,
{
    if i < s.len() && is_ws(s[i]) {
        lemma_skip_ws(s, i + 1);
    }
}

proof fn lemma_skip_name(s: Seq<char>, i: int)
    requires
        0 <= i <= s.len(),
    ensures
        i <= skip_name(s, i) <= s.len(),
        forall|j: int| i <= j < skip_name(s, i) ==> name_char(#[trigger] s[j]),
    decreases s.len() - i,
{
    if i < s.len() && name_char(s[i]) {
        lemma_skip_name(s, i + 1);
    }
}

/// Where a placeholder lies within the text.
pub proof fn lemma_placeholder_bounds(s: Seq<char>, i: int)
    requires
        placeholder_at(s, i) is Some,
    ensures
        ({
            let (a, b, e) = placeholder_at(s, i)->0;
            i + 2 <= a < b && b + 2 <= e <= s.len()
        }),
{
    lemma_skip_ws(s, i + 2);
    let a = skip_ws(s, i + 2);
    lemma_skip_name(s, a + 1);
    lemma_skip_ws(s, skip_name(s, a + 1));
}

/// The variable names of the placeholders found scanning from `i`, in order:
/// a placeholder found is skipped whole before the scan goes on.
pub open spec fn names_from(s: Seq<char>, i: int) -> Seq<Seq<char>>
    decreases s.len() - i,
{
    if 0 <= i < s.len() {
        match placeholder_at(s, i) {
            Some((a, b, e)) => {
                proof {
                    lemma_placeholder_bounds(s, i);
                }
                seq![s.subrange(a, b)] + names_from(s, e)
            },
            None => names_from(s, i + 1),
        }
    } else {
        Seq::empty()
    }
}

/// The first occurrence of each element, in order.
pub open spec fn first_occurrences(q: Seq<Seq<char>>) -> Seq<Seq<char>>
    decreases q.len(),
{
    if q.len() == 0 {
        Seq::empty()
    } else {
        let d = first_occurrences(q.drop_last());
        if d.contains(q.last()) {
            d
        } else {
            d.push(q.last())
        }
    }
}

/// The variables a template uses, each once, in the order they first occur.
pub open spec fn template_vars(s: Seq<char>) -> Seq<Seq<char>> {
    first_occurrences(names_from(s, 0))
}

// ---------------------------------------------------------------------------
// Variables

/// The views of a list of name and value pairs.
pub open spec fn pairs_view(v: Seq<(String, String)>) -> Seq<(Seq<char>, Seq<char>)> {
    Seq::new(v.len(), |i: int| (v[i].0@, v[i].1@))
}

/// The value of the first pair from `i` on whose name is `k`.
pub open spec fn lookup_from(vars: Seq<(Seq<char>, Seq<char>)>, k: Seq<char>, i: int) -> Option<Seq<char>>
    decreases vars.len() - i,
{
    if 0 <= i < vars.len() {
        if vars[i].0 == k {
            Some(vars[i].1)
        } else {
            lookup_from(vars, k, i + 1)
        }
    } else {
        None
    }
}

/// The value of the variable `k`.
pub open spec fn lookup(vars: Seq<(Seq<char>, Seq<char>)>, k: Seq<char>) -> Option<Seq<char>> {
    lookup_from(vars, k, 0)
}

/// The text that replaces the placeholder of `k`: its value, or nothing.
pub open spec fn value_text(vars: Seq<(Seq<char>, Seq<char>)>, k: Seq<char>) -> Seq<char> {
    match lookup(vars, k) {
        Some(v) => v,
        None => Seq::empty(),
    }
}

/// The template from `i` on, each placeholder replaced by the value of its
/// variable.
pub open spec fn render_from(s: Seq<char>, vars: Seq<(Seq<char>, Seq<char>)>, i: int) -> Seq<char>
    decreases s.len() - i,
{
    if 0 <= i < s.len() {
        match placeholder_at(s, i) {
            Some((a, b, e)) => {
                proof {
                    lemma_placeholder_bounds(s, i);
                }
                value_text(vars, s.subrange(a, b)) + render_from(s, vars, e)
            },
            None => seq![s[i]] + render_from(s, vars, i + 1),
        }
    } else {
        Seq::empty()
    }
}

/// The rendered template.
pub open spec fn render_spec(s: Seq<char>, vars: Seq<(Seq<char>, Seq<char>)>) -> Seq<char> {
    render_from(s, vars, 0)
}

/// The names of the first `n` pairs that are neither `template` nor used by
/// the template.
pub open spec fn extra_vars(vars: Seq<(Seq<char>, Seq<char>)>, used: Seq<Seq<char>>, n: int) -> Seq<Seq<char>>
    decreases n,
{
    if n <= 0 || n > vars.len() {
        Seq::empty()
    } else {
        let p = extra_vars(vars, used, n - 1);
        let k = vars[n - 1].0;
        if k != "template"@ && !used.contains(k) {
            p.push(k)
        } else {
            p
        }
    }
}

/// The first `n` used variables that no pair gives.
pub open spec fn missing_vars(vars: Seq<(Seq<char>, Seq<char>)>, used: Seq<Seq<char>>, n: int) -> Seq<Seq<char>>
    decreases n,
{
    if n <= 0 || n > used.len() {
        Seq::empty()
    } else {
        let p = missing_vars(vars, used, n - 1);
        if lookup(vars, used[n - 1]) is None {
            p.push(used[n - 1])
        } else {
            p
        }
    }
}

/// The text that `{:?}` gives for a list of strings.
pub uninterp spec fn debug_list_text(items: Seq<Seq<char>>) -> Seq<char>;

/// The verdict on the variables a process gives for a template: the extra
/// ones are refused first, then the missing ones.
pub open spec fn vars_verdict(s: Seq<char>, vars: Seq<(Seq<char>, Seq<char>)>) -> Result<(), Seq<char>> {
    let used = template_vars(s);
    let extra = extra_vars(vars, used, vars.len() as int);
    let missing = missing_vars(vars, used, used.len() as int);
    if extra.len() > 0 {
        Err("Extra variables in input map: "@ + debug_list_text(extra))
    } else if missing.len() > 0 {
        Err("Missing variables in input map: "@ + debug_list_text(missing))
    } else {
        Ok(())
    }
}

// ---------------------------------------------------------------------------
// Executable scanning

/// `format!("{:?}")` of a vector of strings (its `Debug`): the claim is only
/// that the text depends on the strings alone; the quoting and escaping is
/// named, not stated.
#[verifier::external_body]
fn debug_list(items: &Vec<String>) -> (r: String)
    ensures
        r@ == debug_list_text(string_views(items@)),
{
    format!("{:?}", items)
}

fn is_name_start(c: char) -> (r: bool)
    ensures
        r == name_start(c),
{
    ('a' <= c && c <= 'z') || ('A' <= c && c <= 'Z') || c == '_' || c == '-'
}

fn is_name_char(c: char) -> (r: bool)
    ensures
        r == name_char(c),
{
    is_name_start(c) || ('0' <= c && c <= '9')
}

fn skip_ws_exec(s: &Vec<char>, i: usize) -> (r: usize)
    requires
        i <= s@.len(),
    ensures
        r == skip_ws(s@, i as int),
{
    let mut j = i;
    while j < s.len() && char_is_ws(s[j])
        invariant
            i <= j <= s@.len(),
            skip_ws(s@, i as int) == skip_ws(s@, j as int),
        decreases s@.len() - j,
    {
        j = j + 1;
    }
    j
}

fn skip_name_exec(s: &Vec<char>, i: usize) -> (r: usize)
    requires
        i <= s@.len(),
    ensures
        r == skip_name(s@, i as int),
{
    let mut j = i;
    while j < s.len() && is_name_char(s[j])
        invariant
            i <= j <= s@.len(),
            skip_name(s@, i as int) == skip_name(s@, j as int),
        decreases s@.len() - j,
    {
        j = j + 1;
    }
    j
}

fn placeholder_at_exec(s: &Vec<char>, i: usize) -> (r: Option<(usize, usize, usize)>)
    requires
        i < s@.len(),
    ensures
        match r {
            Some((a, b, e)) => placeholder_at(s@, i as int) == Some((a as int, b as int, e as int)),
            None => placeholder_at(s@, i as int) is None,
        },
{
    if s.len() - i > 1 && s[i] == '{' && s[i + 1] == '{' {
        proof {
            lemma_skip_ws(s@, i + 2);
        }
        let a = skip_ws_exec(s, i + 2);
        if a < s.len() && is_name_start(s[a]) {
            proof {
                lemma_skip_name(s@, a + 1);
            }
            let b = skip_name_exec(s, a + 1);
            proof {
                lemma_skip_ws(s@, b as int);
            }
            let c = skip_ws_exec(s, b);
            if c < s.len() && s.len() - c > 1 && s[c] == '}' && s[c + 1] == '}' {
                Some((a, b, c + 2))
            } else {
                None
            }
        } else {
            None
        }
    } else {
        None
    }
}

fn slice_string(s: &Vec<char>, a: usize, b: usize) -> (r: String)
    requires
        a <= b <= s@.len(),
    ensures
        r@ == s@.subrange(a as int, b as int),
{
    let mut v: Vec<char> = Vec::new();
    let mut j = a;
    while j < b
        invariant
            a <= j <= b <= s@.len(),
            v@ == s@.subrange(a as int, j as int),
        decreases b - j,
    {
        v.push(s[j]);
        j = j + 1;
    }
    string_of(v.as_slice())
}

/// The variable names of all placeholders of a template, in order, with
/// repeats.
fn placeholder_names(s: &Vec<char>) -> (r: Vec<String>)
    ensures
        string_views(r@) == names_from(s@, 0),
{
    let mut names: Vec<String> = Vec::new();
    let mut i: usize = 0;
    while i < s.len()
        invariant
            i <= s@.len(),
            names_from(s@, 0) == string_views(names@) + names_from(s@, i as int),
        decreases s@.len() - i,
    {
        match placeholder_at_exec(s, i) {
            Some((a, b, e)) => {
                proof {
                    lemma_placeholder_bounds(s@, i as int);
                }
                let name = slice_string(s, a, b);
                let ghost before = names@;
                names.push(name);
                proof {
                    assert(string_views(names@) =~= string_views(before).push(name@));
                    assert(string_views(names@) + names_from(s@, e as int) =~= string_views(before)
                        + (seq![name@] + names_from(s@, e as int)));
                }
                i = e;
            },
            None => {
                i = i + 1;
            },
        }
    }
    proof {
        assert(string_views(names@) + names_from(s@, i as int) =~= string_views(names@));
    }
    names
}

fn contains_string(v: &Vec<String>, x: &String) -> (r: bool)
    ensures
        r == string_views(v@).contains(x@),
{
    let mut k: usize = 0;
    while k < v.len()
        invariant
            k <= v@.len(),
            forall|m: int| 0 <= m < k ==> v@[m]@ != x@,
        decreases v@.len() - k,
    {
        if v[k] == *x {
            proof {
                assert(string_views(v@)[k as int] == x@);
            }
            return true;
        }
        k = k + 1;
    }
    proof {
        if string_views(v@).contains(x@) {
            let m = choose|m: int| 0 <= m < string_views(v@).len() && string_views(v@)[m] == x@;
            assert(v@[m]@ == x@);
        }
    }
    false
}

/// The variables a template uses, each once, in the order they first occur.
pub fn extract_vars_from_template(template_str: &str) -> (r: Vec<String>)
    ensures
        string_views(r@) == template_vars(template_str@),
{
    let s = chars_of(template_str);
    let names = placeholder_names(&s);
    let mut out: Vec<String> = Vec::new();
    let mut k: usize = 0;
    while k < names.len()
        invariant
            k <= names@.len(),
            string_views(out@) == first_occurrences(string_views(names@).take(k as int)),
        decreases names@.len() - k,
    {
        let ghost q = string_views(names@).take(k as int + 1);
        proof {
            assert(q.drop_last() =~= string_views(names@).take(k as int));
            assert(q.last() == names@[k as int]@);
        }
        if !contains_string(&out, &names[k]) {
            let ghost before = out@;
            out.push(names[k].clone());
            proof {
                assert(string_views(out@) =~= string_views(before).push(names@[k as int]@));
            }
        }
        k = k + 1;
    }
    proof {
        assert(string_views(names@).take(names@.len() as int) =~= string_views(names@));
    }
    out
}

/// The value of the variable `k` among the pairs.
pub fn lookup_exec(vars: &Vec<(String, String)>, k: &String) -> (r: Option<String>)
    ensures
        match r {
            Some(v) => lookup(pairs_view(vars@), k@) == Some(v@),
            None => lookup(pairs_view(vars@), k@) is None,
        },
{
    let ghost pv = pairs_view(vars@);
    let mut i: usize = 0;
    while i < vars.len()
        invariant
            i <= vars@.len(),
            pv == pairs_view(vars@),
            lookup_from(pv, k@, 0) == lookup_from(pv, k@, i as int),
        decreases vars@.len() - i,
    {
        if vars[i].0 == *k {
            return Some(vars[i].1.clone());
        }
        i = i + 1;
    }
    None
}

/// The template with each `{{ name }}` replaced by the value of `name`, or by
/// nothing where no pair names it.
pub fn render_template_string(template: &str, vars: &Vec<(String, String)>) -> (r: String)
    ensures
        r@ == render_spec(template@, pairs_view(vars@)),
{
    let s = chars_of(template);
    let ghost pv = pairs_view(vars@);
    let mut out = String::new();
    let mut i: usize = 0;
    while i < s.len()
        invariant
            i <= s@.len(),
            s@ == template@,
            pv == pairs_view(vars@),
            render_from(s@, pv, 0) == out@ + render_from(s@, pv, i as int),
        decreases s@.len() - i,
    {
        match placeholder_at_exec(&s, i) {
            Some((a, b, e)) => {
                proof {
                    lemma_placeholder_bounds(s@, i as int);
                }
                let name = slice_string(&s, a, b);
                let ghost before = out@;
                match lookup_exec(vars, &name) {
                    Some(v) => {
                        out.append(v.as_str());
                    },
                    None => {},
                }
                proof {
                    assert(out@ == before + value_text(pv, s@.subrange(a as int, b as int)));
                    assert(out@ + render_from(s@, pv, e as int) =~= before + (value_text(
                        pv,
                        s@.subrange(a as int, b as int),
                    ) + render_from(s@, pv, e as int)));
                }
                i = e;
            },
            None => {
                let ghost before = out@;
                let one = string_of(&[s[i]]);
                out.append(one.as_str());
                proof {
                    assert(out@ + render_from(s@, pv, i + 1) =~= before + (seq![s@[i as int]]
                        + render_from(s@, pv, i + 1)));
                }
                i = i + 1;
            },
        }
    }
    proof {
        assert(out@ + render_from(s@, pv, i as int) =~= out@);
    }
    out
}

/// Checks that the pairs give exactly the variables the template uses: no
/// pair but `template` names a variable the template does not use, and every
/// variable it uses has a pair.
pub fn check_vars_in_string(template_str: &str, input_map: &Vec<(String, String)>) -> (r: Result<(), String>)
    ensures
        match r {
            Ok(()) => vars_verdict(template_str@, pairs_view(input_map@)) is Ok,
            Err(e) => vars_verdict(template_str@, pairs_view(input_map@)) == Err::<(), Seq<char>>(e@),
        },
{
    let ghost pv = pairs_view(input_map@);
    let used = extract_vars_from_template(template_str);
    let ghost uv = string_views(used@);
    let template_key = String::from_str("template");
    let mut extra: Vec<String> = Vec::new();
    let mut i: usize = 0;
    while i < input_map.len()
        invariant
            i <= input_map@.len(),
            pv == pairs_view(input_map@),
            uv == string_views(used@),
            template_key@ == "template"@,
            string_views(extra@) == extra_vars(pv, uv, i as int),
        decreases input_map@.len() - i,
    {
        let k = &input_map[i].0;
        if *k != template_key && !contains_string(&used, k) {
            let ghost before = extra@;
            extra.push(k.clone());
            proof {
                assert(string_views(extra@) =~= string_views(before).push(k@));
            }
        }
        i = i + 1;
    }
    if extra.len() > 0 {
        let mut msg = String::from_str("Extra variables in input map: ");
        msg.append(debug_list(&extra).as_str());
        return Err(msg);
    }
    let mut missing: Vec<String> = Vec::new();
    let mut j: usize = 0;
    while j < used.len()
        invariant
            j <= used@.len(),
            pv == pairs_view(input_map@),
            uv == string_views(used@),
            string_views(missing@) == missing_vars(pv, uv, j as int),
        decreases used@.len() - j,
    {
        if lookup_exec(input_map, &used[j]).is_none() {
            let ghost before = missing@;
            missing.push(used[j].clone());
            proof {
                assert(string_views(missing@) =~= string_views(before).push(uv[j as int]));
            }
        }
        j = j + 1;
    }
    if missing.len() > 0 {
        let mut msg = String::from_str("Missing variables in input map: ");
        msg.append(debug_list(&missing).as_str());
        return Err(msg);
    }
    Ok(())
}

// ---------------------------------------------------------------------------
// Laws of templates

/// A variable name: a name start followed by name characters.
pub open spec fn is_var_name(v: Seq<char>) -> bool {
    v.len() >= 1 && name_start(v[0]) && forall|k: int| 1 <= k < v.len() ==> name_char(#[trigger] v[k])
}

proof fn lemma_first_occurrences(q: Seq<Seq<char>>)
    ensures
        forall|i: int, j: int|
            0 <= i < j < first_occurrences(q).len() ==> first_occurrences(q)[i] != first_occurrences(q)[j],
        forall|i: int| 0 <= i < first_occurrences(q).len() ==> q.contains(#[trigger] first_occurrences(q)[i]),
    decreases q.len(),
{
    if q.len() > 0 {
        let d = first_occurrences(q.drop_last());
        lemma_first_occurrences(q.drop_last());
        assert forall|i: int| 0 <= i < first_occurrences(q).len() implies q.contains(
            #[trigger] first_occurrences(q)[i],
        ) by {
            if i < d.len() {
                let x = d[i];
                assert(q.drop_last().contains(x));
                let m = choose|m: int| 0 <= m < q.drop_last().len() && q.drop_last()[m] == x;
                assert(q[m] == x);
            } else {
                assert(q[q.len() - 1] == q.last());
            }
        }
    }
}

proof fn lemma_names_are_names(s: Seq<char>, i: int)
    ensures
        forall|k: int| 0 <= k < names_from(s, i).len() ==> is_var_name(#[trigger] names_from(s, i)[k]),
    decreases s.len() - i,
{
    if 0 <= i < s.len() {
        match placeholder_at(s, i) {
            Some((a, b, e)) => {
                lemma_placeholder_bounds(s, i);
                lemma_names_are_names(s, e);
                lemma_skip_ws(s, i + 2);
                lemma_skip_name(s, a + 1);
                let v = s.subrange(a, b);
                assert forall|k: int| 1 <= k < v.len() implies name_char(#[trigger] v[k]) by {
                    assert(v[k] == s[a + k]);
                }
                assert(is_var_name(v));
                let rest = names_from(s, e);
                assert(names_from(s, i) == seq![v] + rest);
                assert forall|k: int| 0 <= k < names_from(s, i).len() implies is_var_name(
                    #[trigger] names_from(s, i)[k],
                ) by {
                    if k > 0 {
                        assert(names_from(s, i)[k] == rest[k - 1]);
                    }
                }
            },
            None => {
                lemma_names_are_names(s, i + 1);
                assert(names_from(s, i) == names_from(s, i + 1));
            },
        }
    }
}

/// The variables of a template are well-formed names, each listed once.
pub proof fn law_template_vars_are_distinct_names(s: Seq<char>)
    ensures
        forall|k: int| 0 <= k < template_vars(s).len() ==> is_var_name(#[trigger] template_vars(s)[k]),
        forall|i: int, j: int|
            0 <= i < j < template_vars(s).len() ==> template_vars(s)[i] != template_vars(s)[j],
{
    let q = names_from(s, 0);
    lemma_first_occurrences(q);
    lemma_names_are_names(s, 0);
    assert forall|k: int| 0 <= k < template_vars(s).len() implies is_var_name(#[trigger] template_vars(s)[k]) by {
        let x = template_vars(s)[k];
        assert(q.contains(x));
        let m = choose|m: int| 0 <= m < q.len() && q[m] == x;
        assert(is_var_name(q[m]));
    }
}

proof fn lemma_no_extra(vars: Seq<(Seq<char>, Seq<char>)>, used: Seq<Seq<char>>, n: int)
    requires
        0 <= n <= vars.len(),
        extra_vars(vars, used, n).len() == 0,
    ensures
        forall|k: int| 0 <= k < n ==> #[trigger] vars[k].0 == "template"@ || used.contains(vars[k].0),
    decreases n,
{
    if n > 0 {
        let p = extra_vars(vars, used, n - 1);
        assert(p.len() == 0);
        lemma_no_extra(vars, used, n - 1);
    }
}

proof fn lemma_no_missing(vars: Seq<(Seq<char>, Seq<char>)>, used: Seq<Seq<char>>, n: int)
    requires
        0 <= n <= used.len(),
        missing_vars(vars, used, n).len() == 0,
    ensures
        forall|k: int| 0 <= k < n ==> lookup(vars, #[trigger] used[k]) is Some,
    decreases n,
{
    if n > 0 {
        let p = missing_vars(vars, used, n - 1);
        assert(p.len() == 0);
        lemma_no_missing(vars, used, n - 1);
    }
}

/// When the check of a process's variables passes, every variable of the
/// template has a value, and every pair but `template` names a variable of
/// the template: rendering then replaces each placeholder with a given value.
pub proof fn law_checked_vars_match(s: Seq<char>, vars: Seq<(Seq<char>, Seq<char>)>)
    requires
        vars_verdict(s, vars) is Ok,
    ensures
        forall|k: int| 0 <= k < template_vars(s).len() ==> lookup(vars, #[trigger] template_vars(s)[k]) is Some,
        forall|k: int| 0 <= k < vars.len() ==> #[trigger] vars[k].0 == "template"@ || template_vars(s).contains(vars[k].0),
{
    let used = template_vars(s);
    lemma_no_extra(vars, used, vars.len() as int);
    lemma_no_missing(vars, used, used.len() as int);
}

} // verus!
