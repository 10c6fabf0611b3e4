//! Template expansion of a configuration document. Each process whose
//! `template` table names a known template gets that template rendered with
//! the table's variables; the rendered text, once read as TOML, is merged
//! into the process and the `template` tables are dropped.
//!
//! Expansion runs in three steps: `plan_expansion` checks every process in
//! order and renders its template; each rendered text is then read as TOML,
//! which stays with the caller; `merge_processes` and `drop_template_list`
//! put the results back into the document.
use crate::template::{
    check_vars_in_string, lookup, lookup_exec, pairs_view, render_spec, render_template_string,
    vars_verdict,
};
use vstd::prelude::*;

verus! {

#[verifier::external_type_specification]
#[verifier::external_body]
pub struct ExTomlValue(toml::Value);

/// A TOML value as the expansion reads it: texts, tables and arrays, and
/// every other value carried through as it was read.
pub enum TomlValue {
    Text(String),
    Table(Vec<(String, TomlValue)>),
    Array(Vec<TomlValue>),
    Other(toml::Value),
}

/// The position of the first entry from `i` on whose key is `k`.
pub open spec fn key_index_from(t: Seq<(String, TomlValue)>, k: Seq<char>, i: int) -> Option<int>
    decreases t.len() - i,
{
    if 0 <= i < t.len() {
        if t[i].0@ == k {
            Some(i)
        } else {
            key_index_from(t, k, i + 1)
        }
    } else {
        None
    }
}

/// The position of the entry of key `k`.
pub open spec fn key_index(t: Seq<(String, TomlValue)>, k: Seq<char>) -> Option<int> {
    key_index_from(t, k, 0)
}

proof fn lemma_key_index_from(t: Seq<(String, TomlValue)>, k: Seq<char>, i: int)
    requires
        0 <= i,
    ensures
        key_index_from(t, k, i) matches Some(j) ==> i <= j < t.len() && t[j].0@ == k,
    decreases t.len() - i,
{
    if i < t.len() && t[i].0@ != k {
        lemma_key_index_from(t, k, i + 1);
    }
}

/// The value of key `k` in a table.
pub open spec fn get_value(v: TomlValue, k: Seq<char>) -> Option<TomlValue> {
    match v {
        TomlValue::Table(t) => match key_index(t@, k) {
            Some(j) => Some(t@[j].1),
            None => None,
        },
        _ => None,
    }
}

/// The variables of a `template` table: each key with its text, or with
/// nothing where the value is not a text.
pub open spec fn input_pairs(t: Seq<(String, TomlValue)>) -> Seq<(Seq<char>, Seq<char>)> {
    Seq::new(
        t.len(),
        |i: int|
            (
                t[i].0@,
                match t[i].1 {
                    TomlValue::Text(s) => s@,
                    _ => Seq::empty(),
                },
            ),
    )
}

/// What the expansion makes of one process: nothing to do, a rendered
/// template, or the refusal that ends the expansion.
pub open spec fn process_plan(p: TomlValue, templates: Seq<(Seq<char>, Seq<char>)>) -> Result<
    Option<Seq<char>>,
    Seq<char>,
> {
    match get_value(p, "id"@) {
        Some(TomlValue::Text(id)) => match get_value(p, "template"@) {
            Some(TomlValue::Table(tt)) => {
                let input = input_pairs(tt@);
                match lookup(input, "template"@) {
                    None => Err("Missing 'template' field in process '"@ + id@ + "'"@),
                    Some(name) => match lookup(templates, name) {
                        None => Err("Template '"@ + name + "' not found"@),
                        Some(tpl) => match vars_verdict(tpl, input) {
                            Err(e) => Err(
                                "Error in template '"@ + name + "', process id '"@ + id@ + "': "@ + e,
                            ),
                            Ok(()) => Ok(Some(render_spec(tpl, input))),
                        },
                    },
                }
            },
            _ => Ok(None),
        },
        _ => Err("Process ID not found or is not a string"@),
    }
}

/// The renderings of the processes from `i` on, each with the position of
/// its process, up to the first refusal, and that refusal if there is one.
pub open spec fn plan_from(procs: Seq<TomlValue>, templates: Seq<(Seq<char>, Seq<char>)>, i: int) -> (
    Seq<(int, Seq<char>)>,
    Option<Seq<char>>,
)
    decreases procs.len() - i,
{
    if 0 <= i < procs.len() {
        match process_plan(procs[i], templates) {
            Err(e) => (Seq::empty(), Some(e)),
            Ok(None) => plan_from(procs, templates, i + 1),
            Ok(Some(text)) => {
                let rest = plan_from(procs, templates, i + 1);
                (seq![(i, text)] + rest.0, rest.1)
            },
        }
    } else {
        (Seq::empty(), None)
    }
}

/// The plan of a whole document: its `process` array is required.
pub open spec fn expansion_plan(doc: TomlValue, templates: Seq<(Seq<char>, Seq<char>)>) -> (
    Seq<(int, Seq<char>)>,
    Option<Seq<char>>,
) {
    match get_value(doc, "process"@) {
        Some(TomlValue::Array(ps)) => plan_from(ps@, templates, 0),
        _ => (Seq::empty(), Some("No processes found"@)),
    }
}

/// The renderings of a plan, each with the position of its process, and the
/// refusal met after them, if any.
pub struct ExpansionPlan {
    pub renderings: Vec<(usize, String)>,
    pub failure: Option<String>,
}

/// The view of the renderings of a plan.
pub open spec fn renderings_view(r: Seq<(usize, String)>) -> Seq<(int, Seq<char>)> {
    Seq::new(r.len(), |k: int| (r[k].0 as int, r[k].1@))
}

/// The view of a refusal.
pub open spec fn failure_view(f: Option<String>) -> Option<Seq<char>> {
    match f {
        Some(s) => Some(s@),
        None => None,
    }
}

// ---------------------------------------------------------------------------
// Merging rendered tables

/// A table with the entry `e` set: the value of an entry of the same key is
/// replaced, or the entry is appended.
pub open spec fn table_set(t: Seq<(String, TomlValue)>, e: (String, TomlValue)) -> Seq<(String, TomlValue)> {
    match key_index(t, e.0@) {
        Some(j) => t.update(j, (t[j].0, e.1)),
        None => t.push(e),
    }
}

/// A table with each entry of `r` set, in order.
pub open spec fn merge_entries(t: Seq<(String, TomlValue)>, r: Seq<(String, TomlValue)>) -> Seq<(String, TomlValue)>
    decreases r.len(),
{
    if r.len() == 0 {
        t
    } else {
        merge_entries(table_set(t, r[0]), r.drop_first())
    }
}

/// A table without the entry of key `k`.
pub open spec fn table_remove(t: Seq<(String, TomlValue)>, k: Seq<char>) -> Seq<(String, TomlValue)> {
    match key_index(t, k) {
        Some(j) => t.remove(j),
        None => t,
    }
}

/// The top level of a document without its list of templates.
pub open spec fn without_template_list(d: Seq<(String, TomlValue)>) -> Seq<(String, TomlValue)> {
    match key_index(d, "template"@) {
        Some(j) => if d[j].1 is Array {
            d.remove(j)
        } else {
            d
        },
        None => d,
    }
}

/// The rendered table given for the process at `i` among the first `n`
/// results: the first one given for it.
pub open spec fn rendering_in(parsed: Seq<(usize, Vec<(String, TomlValue)>)>, n: int, i: int) -> Option<
    Seq<(String, TomlValue)>,
>
    decreases n,
{
    if n <= 0 || n > parsed.len() {
        None
    } else {
        let r = rendering_in(parsed, n - 1, i);
        if r is Some {
            r
        } else if parsed[n - 1].0 == i {
            Some(parsed[n - 1].1@)
        } else {
            None
        }
    }
}

/// `new` is the process `old` once its rendered table `r`, if any, has been
/// merged into it and its `template` entry removed.
pub open spec fn process_merged(old: TomlValue, new: TomlValue, r: Option<Seq<(String, TomlValue)>>) -> bool {
    match r {
        None => new == old,
        Some(rt) => match old {
            TomlValue::Table(t) => match new {
                TomlValue::Table(t2) => t2@ == table_remove(merge_entries(t@, rt), "template"@),
                _ => false,
            },
            _ => new == old,
        },
    }
}

// ---------------------------------------------------------------------------
// Executable steps

fn key_position(t: &Vec<(String, TomlValue)>, k: &String) -> (r: Option<usize>)
    ensures
        match r {
            Some(j) => key_index(t@, k@) == Some(j as int),
            None => key_index(t@, k@) is None,
        },
{
    let mut i: usize = 0;
    while i < t.len()
        invariant
            i <= t@.len(),
            key_index_from(t@, k@, 0) == key_index_from(t@, k@, i as int),
        decreases t@.len() - i,
    {
        if t[i].0 == *k {
            return Some(i);
        }
        i = i + 1;
    }
    None
}

fn get_entry<'a>(v: &'a TomlValue, k: &String) -> (r: Option<&'a TomlValue>)
    ensures
        match r {
            Some(x) => get_value(*v, k@) == Some(*x),
            None => get_value(*v, k@) is None,
        },
{
    match v {
        TomlValue::Table(t) => match key_position(t, k) {
            Some(j) => {
                proof {
                    lemma_key_index_from(t@, k@, 0);
                }
                Some(&t[j].1)
            },
            None => None,
        },
        _ => None,
    }
}

fn input_map_of(t: &Vec<(String, TomlValue)>) -> (r: Vec<(String, String)>)
    ensures
        pairs_view(r@) == input_pairs(t@),
{
    let mut out: Vec<(String, String)> = Vec::new();
    let mut i: usize = 0;
    while i < t.len()
        invariant
            i <= t@.len(),
            out@.len() == i,
            forall|k: int| 0 <= k < i ==> #[trigger] pairs_view(out@)[k] == input_pairs(t@)[k],
        decreases t@.len() - i,
    {
        let value = match &t[i].1 {
            TomlValue::Text(s) => s.clone(),
            _ => String::new(),
        };
        let ghost before = out@;
        out.push((t[i].0.clone(), value));
        proof {
            assert forall|k: int| 0 <= k < i + 1 implies #[trigger] pairs_view(out@)[k] == input_pairs(
                t@,
            )[k] by {
                if k < i {
                    assert(out@[k] == before[k]);
                    assert(pairs_view(before)[k] == input_pairs(t@)[k]);
                }
            }
        }
        i = i + 1;
    }
    proof {
        assert(pairs_view(out@) =~= input_pairs(t@));
    }
    out
}

fn process_plan_exec(p: &TomlValue, templates: &Vec<(String, String)>) -> (r: Result<Option<String>, String>)
    ensures
        match r {
            Ok(Some(s)) => process_plan(*p, pairs_view(templates@)) == Ok::<Option<Seq<char>>, Seq<char>>(
                Some(s@),
            ),
            Ok(None) => process_plan(*p, pairs_view(templates@)) == Ok::<Option<Seq<char>>, Seq<char>>(
                None,
            ),
            Err(e) => process_plan(*p, pairs_view(templates@)) == Err::<Option<Seq<char>>, Seq<char>>(e@),
        },
{
    let id_key = String::from_str("id");
    let template_key = String::from_str("template");
    let id = match get_entry(p, &id_key) {
        Some(TomlValue::Text(id)) => id,
        _ => {
            return Err(String::from_str("Process ID not found or is not a string"));
        },
    };
    let tt = match get_entry(p, &template_key) {
        Some(TomlValue::Table(tt)) => tt,
        _ => {
            return Ok(None);
        },
    };
    let input = input_map_of(tt);
    let name = match lookup_exec(&input, &template_key) {
        Some(name) => name,
        None => {
            let mut msg = String::from_str("Missing 'template' field in process '");
            msg.append(id.as_str());
            msg.append("'");
            return Err(msg);
        },
    };
    let tpl = match lookup_exec(templates, &name) {
        Some(tpl) => tpl,
        None => {
            let mut msg = String::from_str("Template '");
            msg.append(name.as_str());
            msg.append("' not found");
            return Err(msg);
        },
    };
    match check_vars_in_string(tpl.as_str(), &input) {
        Err(e) => {
            let mut msg = String::from_str("Error in template '");
            msg.append(name.as_str());
            msg.append("', process id '");
            msg.append(id.as_str());
            msg.append("': ");
            msg.append(e.as_str());
            Err(msg)
        },
        Ok(()) => Ok(Some(render_template_string(tpl.as_str(), &input))),
    }
}

/// Checks every process of the document in order and renders the template
/// of each process that has a `template` table, up to the first refusal:
/// no `process` array, a process without a text `id`, a `template` table
/// without a `template` entry, an unknown template, or variables that do
/// not match the template's.
pub fn plan_expansion(doc: &TomlValue, templates: &Vec<(String, String)>) -> (r: ExpansionPlan)
    ensures
        renderings_view(r.renderings@) == expansion_plan(*doc, pairs_view(templates@)).0,
        failure_view(r.failure) == expansion_plan(*doc, pairs_view(templates@)).1,
{
    let ghost tv = pairs_view(templates@);
    let process_key = String::from_str("process");
    let ps = match get_entry(doc, &process_key) {
        Some(TomlValue::Array(ps)) => ps,
        _ => {
            let r = ExpansionPlan {
                renderings: Vec::new(),
                failure: Some(String::from_str("No processes found")),
            };
            proof {
                assert(renderings_view(r.renderings@) =~= Seq::<(int, Seq<char>)>::empty());
            }
            return r;
        },
    };
    let mut renderings: Vec<(usize, String)> = Vec::new();
    let mut i: usize = 0;
    while i < ps.len()
        invariant
            i <= ps@.len(),
            tv == pairs_view(templates@),
            expansion_plan(*doc, tv) == plan_from(ps@, tv, 0),
            plan_from(ps@, tv, 0).0 == renderings_view(renderings@) + plan_from(ps@, tv, i as int).0,
            plan_from(ps@, tv, 0).1 == plan_from(ps@, tv, i as int).1,
        decreases ps@.len() - i,
    {
        match process_plan_exec(&ps[i], templates) {
            Err(e) => {
                proof {
                    assert(plan_from(ps@, tv, i as int).1 == Some(e@));
                    assert(plan_from(ps@, tv, i as int).0 =~= Seq::<(int, Seq<char>)>::empty());
                    assert(renderings_view(renderings@) + plan_from(ps@, tv, i as int).0
                        =~= renderings_view(renderings@));
                }
                return ExpansionPlan { renderings, failure: Some(e) };
            },
            Ok(None) => {},
            Ok(Some(text)) => {
                let ghost before = renderings@;
                let ghost t = text@;
                renderings.push((i, text));
                proof {
                    assert(renderings_view(renderings@) =~= renderings_view(before).push((i as int, t)));
                    assert(renderings_view(before) + plan_from(ps@, tv, i as int).0
                        =~= renderings_view(renderings@) + plan_from(ps@, tv, i + 1).0);
                }
            },
        }
        i = i + 1;
    }
    proof {
        assert(renderings_view(renderings@) + plan_from(ps@, tv, i as int).0 =~= renderings_view(renderings@));
    }
    ExpansionPlan { renderings, failure: None }
}

/// The elements of `v` in reverse order.
fn reversed<T>(v: Vec<T>) -> (r: Vec<T>)
    ensures
        r@.len() == v@.len(),
        forall|k: int| 0 <= k < v@.len() ==> #[trigger] r@[k] == v@[v@.len() - 1 - k],
{
    let ghost orig = v@;
    let n = v.len();
    let mut rest = v;
    let mut rev: Vec<T> = Vec::new();
    while rest.len() > 0
        invariant
            n == orig.len(),
            rest@ == orig.take(rest@.len() as int),
            rev@.len() + rest@.len() == n,
            forall|k: int| 0 <= k < rev@.len() ==> #[trigger] rev@[k] == orig[n - 1 - k],
        decreases rest@.len(),
    {
        let e = rest.pop().unwrap();
        rev.push(e);
    }
    rev
}

fn set_entry(t: Vec<(String, TomlValue)>, e: (String, TomlValue)) -> (r: Vec<(String, TomlValue)>)
    ensures
        r@ == table_set(t@, e),
{
    let mut t = t;
    match key_position(&t, &e.0) {
        Some(j) => {
            proof {
                lemma_key_index_from(t@, e.0@, 0);
            }
            let ghost before = t@;
            let old = t.remove(j);
            t.insert(j, (old.0, e.1));
            proof {
                assert(t@ =~= before.update(j as int, (before[j as int].0, e.1)));
            }
            t
        },
        None => {
            t.push(e);
            t
        },
    }
}

fn remove_entry(t: Vec<(String, TomlValue)>, k: &String) -> (r: Vec<(String, TomlValue)>)
    ensures
        r@ == table_remove(t@, k@),
{
    let mut t = t;
    match key_position(&t, k) {
        Some(j) => {
            proof {
                lemma_key_index_from(t@, k@, 0);
            }
            let _ = t.remove(j);
            t
        },
        None => t,
    }
}

/// A process table with the rendered entries set in order, and without its
/// `template` entry.
pub fn merge_table(t: Vec<(String, TomlValue)>, rendered: Vec<(String, TomlValue)>) -> (r: Vec<(String, TomlValue)>)
    ensures
        r@ == table_remove(merge_entries(t@, rendered@), "template"@),
{
    let ghost rv = rendered@;
    let ghost t0 = t@;
    let n = rendered.len();
    let mut rev = reversed(rendered);
    let mut cur = t;
    proof {
        assert(rv.skip(0) =~= rv);
    }
    while rev.len() > 0
        invariant
            n == rv.len(),
            rev@.len() <= n,
            forall|k: int| 0 <= k < rev@.len() ==> #[trigger] rev@[k] == rv[n - 1 - k],
            merge_entries(t0, rv) == merge_entries(cur@, rv.skip(n - rev@.len())),
        decreases rev@.len(),
    {
        let ghost m = n - rev@.len();
        let e = rev.pop().unwrap();
        proof {
            let rest = rv.skip(m);
            assert(rest[0] == e);
            assert(rest.drop_first() =~= rv.skip(m + 1));
        }
        cur = set_entry(cur, e);
    }
    proof {
        assert(rv.skip(n as int) =~= Seq::<(String, TomlValue)>::empty());
    }
    let template_key = String::from_str("template");
    remove_entry(cur, &template_key)
}

fn merge_one(p: TomlValue, r: Option<Vec<(String, TomlValue)>>) -> (out: TomlValue)
    ensures
        process_merged(
            p,
            out,
            match r {
                Some(v) => Some(v@),
                None => None,
            },
        ),
{
    match r {
        None => p,
        Some(rt) => match p {
            TomlValue::Table(t) => TomlValue::Table(merge_table(t, rt)),
            other => other,
        },
    }
}

/// The view of a slot of rendered tables.
pub open spec fn slot_view(s: Option<Vec<(String, TomlValue)>>) -> Option<Seq<(String, TomlValue)>> {
    match s {
        Some(v) => Some(v@),
        None => None,
    }
}

fn merge_array(ps: Vec<TomlValue>, parsed: Vec<(usize, Vec<(String, TomlValue)>)>) -> (r: Vec<TomlValue>)
    ensures
        r@.len() == ps@.len(),
        forall|i: int|
            0 <= i < ps@.len() ==> process_merged(
                #[trigger] ps@[i],
                r@[i],
                rendering_in(parsed@, parsed@.len() as int, i),
            ),
{
    let ghost pv = parsed@;
    let np = parsed.len();
    let n = ps.len();
    let mut slots: Vec<Option<Vec<(String, TomlValue)>>> = Vec::new();
    let mut k: usize = 0;
    while k < n
        invariant
            k <= n,
            slots@.len() == k,
            forall|i: int| 0 <= i < k ==> #[trigger] slots@[i] is None,
        decreases n - k,
    {
        slots.push(None);
        k = k + 1;
    }
    let mut rev = reversed(parsed);
    while rev.len() > 0
        invariant
            np == pv.len(),
            rev@.len() <= np,
            slots@.len() == n,
            forall|q: int| 0 <= q < rev@.len() ==> #[trigger] rev@[q] == pv[np - 1 - q],
            forall|i: int|
                0 <= i < n ==> slot_view(#[trigger] slots@[i]) == rendering_in(pv, np - rev@.len(), i),
        decreases rev@.len(),
    {
        let ghost m = np - rev@.len();
        let (idx, table) = rev.pop().unwrap();
        proof {
            assert(pv[m] == (idx, table));
        }
        if idx < n {
            if slots[idx].is_none() {
                let ghost tv = table@;
                slots.set(idx, Some(table));
                proof {
                    assert(slot_view(slots@[idx as int]) == Some(tv));
                }
            }
        }
        proof {
            assert forall|i: int| 0 <= i < n implies slot_view(#[trigger] slots@[i]) == rendering_in(
                pv,
                m + 1,
                i,
            ) by {
                assert(rendering_in(pv, m + 1, i) == (if rendering_in(pv, m, i) is Some {
                    rendering_in(pv, m, i)
                } else if pv[m].0 == i {
                    Some(pv[m].1@)
                } else {
                    None
                }));
            }
        }
    }
    let ghost psv = ps@;
    let mut ps_rev = reversed(ps);
    let mut slots_rev = reversed(slots);
    let mut out: Vec<TomlValue> = Vec::new();
    while ps_rev.len() > 0
        invariant
            n == psv.len(),
            ps_rev@.len() == slots_rev@.len(),
            out@.len() + ps_rev@.len() == n,
            forall|q: int| 0 <= q < ps_rev@.len() ==> #[trigger] ps_rev@[q] == psv[n - 1 - q],
            forall|q: int|
                0 <= q < slots_rev@.len() ==> slot_view(#[trigger] slots_rev@[q]) == rendering_in(
                    pv,
                    np as int,
                    n - 1 - q,
                ),
            forall|i: int|
                0 <= i < out@.len() ==> process_merged(
                    psv[i],
                    #[trigger] out@[i],
                    rendering_in(pv, np as int, i),
                ),
        decreases ps_rev@.len(),
    {
        let ghost i = out@.len() as int;
        let p = ps_rev.pop().unwrap();
        let s = slots_rev.pop().unwrap();
        proof {
            assert(p == psv[i]);
            assert(slot_view(s) == rendering_in(pv, np as int, i));
        }
        let merged = merge_one(p, s);
        out.push(merged);
    }
    out
}

/// `r` is the document `doc` with each rendered table of `parsed` merged into
/// the process at its position in the `process` array (the first table given
/// for a process counts), and the `template` entry of each such process
/// removed; every other entry and process is as it was.
pub open spec fn processes_merged(
    doc: TomlValue,
    parsed: Seq<(usize, Vec<(String, TomlValue)>)>,
    r: TomlValue,
) -> bool {
    match doc {
        TomlValue::Table(d) => match key_index(d@, "process"@) {
            Some(j) => match d@[j].1 {
                TomlValue::Array(ps) => match r {
                    TomlValue::Table(q) => {
                        &&& q@.len() == d@.len()
                        &&& forall|k: int| 0 <= k < d@.len() && k != j ==> q@[k] == d@[k]
                        &&& q@[j].0 == d@[j].0
                        &&& match q@[j].1 {
                            TomlValue::Array(ps2) => {
                                &&& ps2@.len() == ps@.len()
                                &&& forall|i: int|
                                    0 <= i < ps@.len() ==> process_merged(
                                        #[trigger] ps@[i],
                                        ps2@[i],
                                        rendering_in(parsed, parsed.len() as int, i),
                                    )
                            },
                            _ => false,
                        }
                    },
                    _ => false,
                },
                _ => r == doc,
            },
            None => r == doc,
        },
        _ => r == doc,
    }
}

/// `r` is the document `doc` without its top-level `template` entry where
/// that entry is an array.
pub open spec fn template_list_dropped(doc: TomlValue, r: TomlValue) -> bool {
    match doc {
        TomlValue::Table(d) => r matches TomlValue::Table(q) && q@ == without_template_list(d@),
        _ => r == doc,
    }
}

/// The document with each rendered table merged into the process at its
/// position in the `process` array (the first table given for a process
/// counts), and the `template` entry of each such process removed. Every
/// other entry and process stays as it was.
pub fn merge_processes(doc: TomlValue, parsed: Vec<(usize, Vec<(String, TomlValue)>)>) -> (r: TomlValue)
    ensures
        processes_merged(doc, parsed@, r),

{
    let process_key = String::from_str("process");
    match doc {
        TomlValue::Table(d) => {
            let mut d = d;
            match key_position(&d, &process_key) {
                Some(j) => {
                    proof {
                        lemma_key_index_from(d@, process_key@, 0);
                    }
                    let is_array = match &d[j].1 {
                        TomlValue::Array(_) => true,
                        _ => false,
                    };
                    if !is_array {
                        return TomlValue::Table(d);
                    }
                    let ghost before = d@;
                    let (key, value) = d.remove(j);
                    match value {
                        TomlValue::Array(ps) => {
                            let ghost old_ps = ps;
                            proof {
                                assert(before[j as int].1 == TomlValue::Array(old_ps));
                            }
                            let merged = merge_array(ps, parsed);
                            let ghost new_value = TomlValue::Array(merged);
                            let ghost new_key = key;
                            d.insert(j, (key, TomlValue::Array(merged)));
                            proof {
                                assert(d@[j as int] == (new_key, new_value));
                                assert(d@.len() == before.len());
                                assert forall|k: int| 0 <= k < before.len() && k != j implies d@[k]
                                    == before[k] by {
                                    if k < j {
                                        assert(d@[k] == before[k]);
                                    } else {
                                        assert(d@[k] == before[k]);
                                    }
                                }
                            }
                            TomlValue::Table(d)
                        },
                        other => {
                            proof {
                                assert(before[j as int].1 is Array);
                            }
                            d.insert(j, (key, other));
                            TomlValue::Table(d)
                        },
                    }
                },
                None => TomlValue::Table(d),
            }
        },
        other => other,
    }
}

/// The document without its top-level `template` entry where that entry is
/// an array; any other document stays as it was.
pub fn drop_template_list(doc: TomlValue) -> (r: TomlValue)
    ensures
        template_list_dropped(doc, r),
{
    let template_key = String::from_str("template");
    match doc {
        TomlValue::Table(d) => {
            let mut d = d;
            match key_position(&d, &template_key) {
                Some(j) => {
                    proof {
                        lemma_key_index_from(d@, template_key@, 0);
                    }
                    let is_array = match &d[j].1 {
                        TomlValue::Array(_) => true,
                        _ => false,
                    };
                    if is_array {
                        let _ = d.remove(j);
                    }
                    TomlValue::Table(d)
                },
                None => TomlValue::Table(d),
            }
        },
        other => other,
    }
}

// ---------------------------------------------------------------------------
// Reading TOML text, and the whole expansion

/// The document a TOML text holds, or the message of the parser's refusal.
pub uninterp spec fn toml_document(s: Seq<char>) -> Result<TomlValue, Seq<char>>;

/// Converts a parsed TOML value, one for one: strings to texts, tables and
/// arrays element by element, every other value carried as it is.
#[verifier::external_body]
fn toml_value_model(v: toml::Value) -> TomlValue {
    match v {
        toml::Value::String(s) => TomlValue::Text(s),
        toml::Value::Table(t) => TomlValue::Table(t.into_iter().map(|(k, x)| (k, toml_value_model(x))).collect()),
        toml::Value::Array(a) => TomlValue::Array(a.into_iter().map(toml_value_model).collect()),
        other => TomlValue::Other(other),
    }
}

/// `toml::from_str::<toml::Value>`, converted to the library's view of a
/// document, and the refusal's `to_string`. The claim is only that the
/// result depends on the text alone.
#[verifier::external_body]
fn parse_toml_document(s: &str) -> (r: Result<TomlValue, String>)
    ensures
        match r {
            Ok(v) => toml_document(s@) == Ok::<TomlValue, Seq<char>>(v),
            Err(e) => toml_document(s@) == Err::<TomlValue, Seq<char>>(e@),
        },
{
    match toml::from_str::<toml::Value>(s) {
        Ok(v) => Ok(toml_value_model(v)),
        Err(e) => Err(e.to_string()),
    }
}

/// The refusal of a rendered template that is not a TOML table.
pub open spec fn invalid_rendering(text: Seq<char>) -> Seq<char> {
    "Template does not produce valid TOML\n"@ + text
}

/// The rendered texts from the `k`-th on, each read as a TOML table with the
/// position of its process, or the refusal of the first one that is not.
pub open spec fn rendered_tables(r: Seq<(int, Seq<char>)>, k: int) -> Result<
    Seq<(usize, Vec<(String, TomlValue)>)>,
    Seq<char>,
>
    decreases r.len() - k,
{
    if 0 <= k < r.len() {
        match toml_document(r[k].1) {
            Ok(TomlValue::Table(t)) => match rendered_tables(r, k + 1) {
                Ok(rest) => Ok(seq![(r[k].0 as usize, t)] + rest),
                Err(e) => Err(e),
            },
            _ => Err(invalid_rendering(r[k].1)),
        }
    } else {
        Ok(Seq::empty())
    }
}

/// What reading the first renderings gives once `done` is known to be their
/// tables.
pub open spec fn after_prefix(
    done: Seq<(usize, Vec<(String, TomlValue)>)>,
    rest: Result<Seq<(usize, Vec<(String, TomlValue)>)>, Seq<char>>,
) -> Result<Seq<(usize, Vec<(String, TomlValue)>)>, Seq<char>> {
    match rest {
        Ok(t) => Ok(done + t),
        Err(e) => Err(e),
    }
}

/// Expands the templates of a configuration text: the text is read as
/// TOML, each process is checked and its template rendered in order, each
/// rendering is read as a TOML table (a rendering that is not comes before the
/// refusal that ended the checks), and the tables are merged into their
/// processes before the list of templates is dropped.
pub fn expand_template(input: &str, templates: &Vec<(String, String)>) -> (r: Result<TomlValue, String>)
    ensures
        match toml_document(input@) {
            Err(e) => r matches Err(m) && m@ == e,
            Ok(doc) => {
                let plan = expansion_plan(doc, pairs_view(templates@));
                match rendered_tables(plan.0, 0) {
                    Err(e) => r matches Err(m) && m@ == e,
                    Ok(parsed) => match plan.1 {
                        Some(f) => r matches Err(m) && m@ == f,
                        None => r matches Ok(out) && exists|mid: TomlValue|
                            processes_merged(doc, parsed, mid) && template_list_dropped(mid, out),
                    },
                }
            },
        },
{
    let doc = match parse_toml_document(input) {
        Ok(doc) => doc,
        Err(e) => {
            return Err(e);
        },
    };
    let ghost tv = pairs_view(templates@);
    let plan = plan_expansion(&doc, templates);
    let ghost rv = renderings_view(plan.renderings@);
    let ExpansionPlan { renderings, failure } = plan;
    let mut parsed: Vec<(usize, Vec<(String, TomlValue)>)> = Vec::new();
    let mut k: usize = 0;
    proof {
        assert(parsed@ + Seq::<(usize, Vec<(String, TomlValue)>)>::empty() =~= parsed@);
    }
    while k < renderings.len()
        invariant
            k <= renderings@.len(),
            rv == renderings_view(renderings@),
            toml_document(input@) == Ok::<TomlValue, Seq<char>>(doc),
            tv == pairs_view(templates@),
            rv == expansion_plan(doc, tv).0,
            failure_view(failure) == expansion_plan(doc, tv).1,
            rendered_tables(rv, 0) == after_prefix(parsed@, rendered_tables(rv, k as int)),
        decreases renderings@.len() - k,
    {
        let (index, text) = (renderings[k].0, renderings[k].1.as_str());
        proof {
            assert(rv[k as int] == (index as int, text@));
        }
        match parse_toml_document(text) {
            Ok(TomlValue::Table(t)) => {
                let ghost before = parsed@;
                let ghost tt = t;
                parsed.push((index, t));
                proof {
                    assert(((index as int) as usize) == index);
                    match rendered_tables(rv, k + 1) {
                        Ok(rest) => {
                            assert(before + (seq![(index, tt)] + rest) =~= parsed@ + rest);
                        },
                        Err(_) => {},
                    }
                }
            },
            _ => {
                proof {
                    assert(rendered_tables(rv, k as int) == Err::<Seq<(usize, Vec<(String, TomlValue)>)>, Seq<char>>(
                        invalid_rendering(text@),
                    ));
                }
                let mut msg = String::from_str("Template does not produce valid TOML\n");
                msg.append(text);
                return Err(msg);
            },
        }
        k = k + 1;
    }
    proof {
        assert(parsed@ + Seq::<(usize, Vec<(String, TomlValue)>)>::empty() =~= parsed@);
    }
    if let Some(f) = failure {
        return Err(f);
    }
    let merged = merge_processes(doc, parsed);
    let out = drop_template_list(merged);
    Ok(out)
}

/// The text of the `podman` template: a container run with `podman run`,
/// removed before it starts and when it stops, and checked by its state.
pub open spec fn podman_template() -> Seq<char> {
    r#"
# image = "{{ image }}"
# container_name = "{{ container_name }}"
# command = "{{ command }}"

command = "podman run --init --rm --name {{ container_name }} {{ image }} {{ command }}"
before = "podman stop -t4 {{ container_name }} || true && podman rm -f {{ container_name }}"
health_check = "[ \"$(podman inspect --format '{{ '{{.State.Status}}' }}' {{ container_name }})\" = \"running\" ]"
stop = "podman stop -t4 {{ container_name }} || true && podman rm -f {{ container_name }}"
        "#@
}

/// The templates a configuration may name.
pub fn builtin_templates() -> (r: Vec<(String, String)>)
    ensures
        pairs_view(r@) == seq![("podman"@, podman_template())],
{
    let mut v: Vec<(String, String)> = Vec::new();
    v.push((String::from_str("podman"), String::from_str(r#"
# image = "{{ image }}"
# container_name = "{{ container_name }}"
# command = "{{ command }}"

command = "podman run --init --rm --name {{ container_name }} {{ image }} {{ command }}"
before = "podman stop -t4 {{ container_name }} || true && podman rm -f {{ container_name }}"
health_check = "[ \"$(podman inspect --format '{{ '{{.State.Status}}' }}' {{ container_name }})\" = \"running\" ]"
stop = "podman stop -t4 {{ container_name }} || true && podman rm -f {{ container_name }}"
        "#)));
    proof {
        assert(pairs_view(v@) =~= seq![("podman"@, podman_template())]);
    }
    v
}

/// Every rendering of a plan belongs to a process that has a `template`
/// table and whose plan is that rendering: the merge only ever touches
/// processes that asked for a template.
pub proof fn law_renderings_belong_to_template_processes(
    procs: Seq<TomlValue>,
    templates: Seq<(Seq<char>, Seq<char>)>,
    i: int,
)
    requires
        0 <= i,
    ensures
        forall|k: int|
            0 <= k < plan_from(procs, templates, i).0.len() ==> {
                let (p, text) = #[trigger] plan_from(procs, templates, i).0[k];
                &&& i <= p < procs.len()
                &&& process_plan(procs[p], templates) == Ok::<Option<Seq<char>>, Seq<char>>(Some(text))
                &&& get_value(procs[p], "template"@) matches Some(TomlValue::Table(_))
            },
    decreases procs.len() - i,
{
    if i < procs.len() {
        law_renderings_belong_to_template_processes(procs, templates, i + 1);
        let rest = plan_from(procs, templates, i + 1);
        match process_plan(procs[i], templates) {
            Err(_) => {},
            Ok(None) => {},
            Ok(Some(text)) => {
                let all = plan_from(procs, templates, i).0;
                assert(all == seq![(i, text)] + rest.0);
                assert forall|k: int| 0 <= k < all.len() implies {
                    let (p, t) = #[trigger] all[k];
                    &&& i <= p < procs.len()
                    &&& process_plan(procs[p], templates) == Ok::<Option<Seq<char>>, Seq<char>>(Some(t))
                    &&& get_value(procs[p], "template"@) matches Some(TomlValue::Table(_))
                } by {
                    if k > 0 {
                        assert(all[k] == rest.0[k - 1]);
                    }
                }
            },
        }
    }
}

} // verus!
