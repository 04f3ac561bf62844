//! Names of variables, for diagnostics.

use vstd::prelude::*;
use vstd::string::*;
use cassowary::Variable;
use crate::assoc::AssocList;
use crate::seqs::lemma_take_step;
use crate::engine::{
    same_variable, variable_debug, variable_debug_text, variable_precedes, variable_rank,
};

verus! {

/// A table of names of variables.
pub type VarNames = AssocList<Variable, String>;

/// The names that a table holds, as texts.
pub open spec fn texts(names: VarNames) -> Map<Variable, Seq<char>> {
    names@.map_values(|s: String| s@)
}

/// The text that stands for a variable: its name where it has one, else
/// `var(..)` around what the engine prints for it.
pub open spec fn variable_text(names: Map<Variable, Seq<char>>, variable: Variable) -> Seq<char> {
    if names.contains_key(variable) {
        names[variable]
    } else {
        "var("@ + variable_debug_text(variable) + ")"@
    }
}

/// Gives `var` the name `name`, in place of the name it had.
pub fn add_debug_var_name(names: &mut VarNames, var: Variable, name: &str)
    requires
        old(names).wf(),
    ensures
        final(names).wf(),
        texts(*final(names)) == texts(*old(names)).insert(var, name@),
{
    names.insert(var, name.to_owned());
    proof {
        assert(texts(*names) =~= texts(*old(names)).insert(var, name@));
    }
}

/// The text that stands for `variable`.
pub fn fmt_variable(names: &VarNames, variable: Variable) -> (r: String)
    requires
        names.wf(),
    ensures
        r@ == variable_text(texts(*names), variable),
{
    match names.get(&variable) {
        Some(name) => name.clone(),
        None => {
            let mut out = String::from_str("var(");
            let text = variable_debug(&variable);
            out.append(text.as_str());
            out.append(")");
            out
        },
    }
}

/// Whether the variables stand in their order, each before the next.
pub open spec fn ordered(list: Seq<Variable>) -> bool {
    forall|i: int, j: int|
        0 <= i < j < list.len() ==> variable_rank(#[trigger] list[i]) < variable_rank(
            #[trigger] list[j],
        )
}

/// The variables of `list` in their order, each once.
pub fn sorted_variables(list: &Vec<Variable>) -> (r: Vec<Variable>)
    ensures
        ordered(r@),
        forall|v: Variable| r@.contains(v) <==> list@.contains(v),
{
    let mut out: Vec<Variable> = Vec::new();
    let mut i: usize = 0;
    proof {
        assert(list@.take(0) =~= Seq::<Variable>::empty());
    }
    while i < list.len()
        invariant
            i <= list@.len(),
            ordered(out@),
            forall|v: Variable| out@.contains(v) <==> list@.take(i as int).contains(v),
        decreases list@.len() - i,
    {
        let key = list[i];
        let mut p: usize = 0;
        let mut searching = true;
        while searching && p < out.len()
            invariant
                p <= out@.len(),
                forall|q: int| 0 <= q < p ==> variable_rank(#[trigger] out@[q]) < variable_rank(key),
                !searching ==> p < out@.len() && variable_rank(key) <= variable_rank(out@[p as int]),
            decreases out@.len() - p + (if searching { 1int } else { 0int }),
        {
            if variable_precedes(&out[p], &key) {
                p += 1;
            } else {
                searching = false;
            }
        }
        let present = p < out.len() && same_variable(&out[p], &key);
        let ghost before = out@;
        proof {
            lemma_take_step(list@, i as int);
        }
        if !present {
            out.insert(p, key);
            proof {
                let now = out@;
                assert(now == before.insert(p as int, key));
                assert forall|a: int, b: int| 0 <= a < b < now.len() implies variable_rank(
                    #[trigger] now[a],
                ) < variable_rank(#[trigger] now[b]) by {
                    let a0 = if a < p { a } else { a - 1 };
                    let b0 = if b < p { b } else { b - 1 };
                    if a != p && b != p {
                        assert(now[a] == before[a0]);
                        assert(now[b] == before[b0]);
                    } else if a == p {
                        assert(now[b] == before[b0]);
                        assert(variable_rank(before[p as int]) <= variable_rank(before[b0]));
                    } else {
                        assert(now[a] == before[a0]);
                    }
                }
                assert forall|v: Variable| now.contains(v) <==> (before.contains(v) || v
                    == key) by {
                    if now.contains(v) {
                        let a = now.index_of(v);
                        assert(now[a] == v);
                        if a != p {
                            let a0 = if a < p { a } else { a - 1 };
                            assert(before[a0] == v);
                        }
                    }
                    if before.contains(v) {
                        let a0 = before.index_of(v);
                        assert(before[a0] == v);
                        let a = if a0 < p { a0 } else { a0 + 1 };
                        assert(now[a] == v);
                    }
                    assert(now[p as int] == key);
                }
            }
        } else {
            proof {
                assert(before[p as int] == key);
            }
        }
        i += 1;
    }
    proof {
        assert(list@.take(i as int) =~= list@);
    }
    out
}

} // verus!
