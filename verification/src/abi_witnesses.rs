use vstd::prelude::*;

use crate::abi::{AbiParameter, AbiVisibility};
use crate::evaluator::{
    lemma_param_step_count, lemma_param_step_fresh, lemma_params_fold_monotone, param_step,
    params_fold, parsed_abi, private_abi_input, EvaluatorModel,
};
use crate::layout::{distinct_values, lemma_insert_fresh, refused, values_within, witness_count};
use crate::witness::{indices, Witness};

verus! {

/// The number of witnesses that the parameters `ps` take together.
pub open spec fn total_witness_count(ps: Seq<AbiParameter>) -> nat
    decreases ps.len(),
{
    if ps.len() == 0 {
        0
    } else {
        witness_count(ps[0].name@, ps[0].typ) + total_witness_count(ps.drop_first())
    }
}

/// Whether taking in the parameters `ps` meets a refused range constraint.
pub open spec fn params_refused(ps: Seq<AbiParameter>) -> bool
    decreases ps.len(),
{
    ps.len() > 0 && (refused(ps[0].name@, ps[0].typ) || params_refused(ps.drop_first()))
}

/// The ABI's witnesses are exactly those that its parameters take: after
/// `Evaluator::parse_abi_alt`, the number of ABI witnesses is the highest index in use before
/// plus the witnesses of all parameters.
pub proof fn lemma_abi_witness_count(m: EvaluatorModel, ps: Seq<AbiParameter>)
    requires
        !params_refused(ps),
    ensures
        parsed_abi(m, ps).num_witnesses_abi_len == parsed_abi(m, ps).current_witness_index,
        parsed_abi(m, ps).current_witness_index == m.current_witness_index + total_witness_count(
            ps,
        ),
    decreases ps.len(),
{
    if ps.len() > 0 {
        let m1 = param_step(m, ps[0].name@, ps[0].typ, ps[0].visibility);
        lemma_param_step_count(m, ps[0].name@, ps[0].typ, ps[0].visibility);
        lemma_abi_witness_count(m1, ps.drop_first());
    }
}

/// Every witness recorded for a parameter, and every public parameter, has an index between
/// 1 and the highest index in use.
pub open spec fn in_use(m: EvaluatorModel) -> bool {
    &&& 0 <= m.current_witness_index
    &&& values_within(m.param_witnesses, 0, m.current_witness_index)
    &&& distinct_values(m.param_witnesses)
    &&& forall|x: u32| m.public_parameters.contains(x) ==> 0 < x <= m.current_witness_index
}

/// No two parameters have the same name.
pub open spec fn distinct_names(ps: Seq<AbiParameter>) -> bool {
    forall|i: int, j: int| 0 <= i < j < ps.len() ==> ps[i].name@ != ps[j].name@
}

proof fn lemma_param_step_in_use(m: EvaluatorModel, p: AbiParameter)
    requires
        in_use(m),
        !refused(p.name@, p.typ),
        m.current_witness_index + witness_count(p.name@, p.typ) <= u32::MAX,
    ensures
        in_use(param_step(m, p.name@, p.typ, p.visibility)),
        param_step(m, p.name@, p.typ, p.visibility).current_witness_index
            >= m.current_witness_index,
        forall|x: u32|
            x <= m.current_witness_index ==> (param_step(
                m,
                p.name@,
                p.typ,
                p.visibility,
            ).public_parameters.contains(x) == m.public_parameters.contains(x)),
{
    let m1 = param_step(m, p.name@, p.typ, p.visibility);
    let k = p.name@;
    lemma_param_step_count(m, k, p.typ, p.visibility);
    lemma_param_step_fresh(m, k, p.typ, p.visibility);
    let ws = m1.param_witnesses[k];
    lemma_insert_fresh(
        m.param_witnesses,
        0,
        m.current_witness_index,
        k,
        ws,
        m1.current_witness_index,
    );
    assert forall|q: Seq<char>, i: int|
        m1.param_witnesses.dom().contains(q) && 0 <= i < m1.param_witnesses[q].len() implies 0 < (
        #[trigger] m1.param_witnesses[q][i]).0 <= m1.current_witness_index by {
        if q != k {
            assert(m1.param_witnesses[q][i] == m.param_witnesses[q][i]);
        }
    }
    assert forall|x: u32| #[trigger] m1.public_parameters.contains(x) implies 0 < x
        <= m1.current_witness_index && (x <= m.current_witness_index
        ==> m.public_parameters.contains(x)) by {
        if !m.public_parameters.contains(x) {
            let j = choose|j: int| 0 <= j < indices(ws).len() && indices(ws)[j] == x;
            assert(ws[j].0 == x);
        }
    }
}

/// Taking in parameters of other names leaves the witnesses recorded under `k` as they were,
/// and does not change whether an index in use before is a public parameter.
proof fn lemma_fold_keeps(m: EvaluatorModel, rest: Seq<AbiParameter>, k: Seq<char>)
    requires
        in_use(m),
        params_fold(m, rest).current_witness_index <= u32::MAX,
        !params_refused(rest),
        forall|j: int| 0 <= j < rest.len() ==> (#[trigger] rest[j]).name@ != k,
    ensures
        in_use(params_fold(m, rest)),
        params_fold(m, rest).current_witness_index >= m.current_witness_index,
        m.param_witnesses.dom().contains(k) ==> params_fold(m, rest).param_witnesses.dom().contains(
            k,
        ) && params_fold(m, rest).param_witnesses[k] == m.param_witnesses[k],
        forall|x: u32|
            x <= m.current_witness_index ==> (params_fold(m, rest).public_parameters.contains(x)
                == m.public_parameters.contains(x)),
    decreases rest.len(),
{
    if rest.len() > 0 {
        let p = rest[0];
        let m1 = param_step(m, p.name@, p.typ, p.visibility);
        lemma_param_step_count(m, p.name@, p.typ, p.visibility);
        lemma_params_fold_monotone(m1, rest.drop_first());
        lemma_param_step_in_use(m, p);
        assert forall|j: int| 0 <= j < rest.drop_first().len() implies (
        #[trigger] rest.drop_first()[j]).name@ != k by {
            assert(rest.drop_first()[j] == rest[j + 1]);
        }
        lemma_fold_keeps(m1, rest.drop_first(), k);
    }
}

/// Taking in the parameters of the ABI in order, with distinct names: every witness of a
/// parameter is new, and it is a public parameter exactly when the parameter is public.
/// So a witness of a private parameter is never made public, and it is a private ABI input
/// once the number of ABI witnesses is recorded (`Evaluator::parse_abi_alt`,
/// `Evaluator::is_private_abi_input`).
pub proof fn lemma_parameter_privacy(m: EvaluatorModel, ps: Seq<AbiParameter>, i: int)
    requires
        in_use(m),
        distinct_names(ps),
        forall|j: int| 0 <= j < ps.len() ==> !m.param_witnesses.dom().contains((#[trigger] ps[j]).name@),
        params_fold(m, ps).current_witness_index <= u32::MAX,
        !params_refused(ps),
        0 <= i < ps.len(),
    ensures
        params_fold(m, ps).param_witnesses.dom().contains(ps[i].name@),
        forall|j: int|
            0 <= j < params_fold(m, ps).param_witnesses[ps[i].name@].len() ==> {
                let w = #[trigger] params_fold(m, ps).param_witnesses[ps[i].name@][j];
                &&& m.current_witness_index < w.0 <= params_fold(m, ps).current_witness_index
                &&& (params_fold(m, ps).public_parameters.contains(w.0) <==> ps[i].visibility
                    == AbiVisibility::Public)
            },
    decreases i,
{
    let p = ps[0];
    let m1 = param_step(m, p.name@, p.typ, p.visibility);
    let rest = ps.drop_first();
    let mf = params_fold(m, ps);
    assert(mf == params_fold(m1, rest));
    lemma_param_step_count(m, p.name@, p.typ, p.visibility);
    lemma_params_fold_monotone(m1, rest);
    lemma_param_step_in_use(m, p);
    if i == 0 {
        let k = p.name@;
        lemma_param_step_fresh(m, k, p.typ, p.visibility);
        assert forall|j: int| 0 <= j < rest.len() implies (#[trigger] rest[j]).name@ != k by {
            assert(rest[j] == ps[j + 1]);
        }
        lemma_fold_keeps(m1, rest, k);
        let ws = m1.param_witnesses[k];
        assert forall|j: int| 0 <= j < ws.len() implies (m1.public_parameters.contains(
            (#[trigger] ws[j]).0,
        ) <==> p.visibility == AbiVisibility::Public) by {
            if p.visibility == AbiVisibility::Public {
                assert(indices(ws)[j] == ws[j].0);
                assert(indices(ws).contains(ws[j].0));
            }
        }
    } else {
        assert forall|j: int| 0 <= j < rest.len() implies !m1.param_witnesses.dom().contains(
            (#[trigger] rest[j]).name@,
        ) by {
            assert(rest[j] == ps[j + 1]);
        }
        assert(distinct_names(rest)) by {
            assert forall|a: int, b: int| 0 <= a < b < rest.len() implies rest[a].name@
                != rest[b].name@ by {
                assert(rest[a] == ps[a + 1] && rest[b] == ps[b + 1]);
            }
        }
        lemma_parameter_privacy(m1, rest, i - 1);
        assert(rest[i - 1] == ps[i]);
    }
}

/// Once the parameters of the ABI (with distinct names) are taken in, a witness of a
/// parameter is a private ABI input exactly when the parameter is private.
pub proof fn lemma_private_abi_inputs(m: EvaluatorModel, ps: Seq<AbiParameter>, i: int, j: int)
    requires
        in_use(m),
        distinct_names(ps),
        forall|q: int| 0 <= q < ps.len() ==> !m.param_witnesses.dom().contains((#[trigger] ps[q]).name@),
        params_fold(m, ps).current_witness_index <= u32::MAX,
        !params_refused(ps),
        0 <= i < ps.len(),
        0 <= j < parsed_abi(m, ps).param_witnesses[ps[i].name@].len(),
    ensures
        private_abi_input(parsed_abi(m, ps), parsed_abi(m, ps).param_witnesses[ps[i].name@][j])
            <==> ps[i].visibility == AbiVisibility::Private,
{
    lemma_parameter_privacy(m, ps, i);
    let w = params_fold(m, ps).param_witnesses[ps[i].name@][j];
    assert(m.current_witness_index < w.0 <= params_fold(m, ps).current_witness_index);
}

/// Taking in parameters keeps every recorded witness in use and recorded once.
pub proof fn lemma_fold_in_use(m: EvaluatorModel, ps: Seq<AbiParameter>)
    requires
        in_use(m),
        params_fold(m, ps).current_witness_index <= u32::MAX,
        !params_refused(ps),
    ensures
        in_use(params_fold(m, ps)),
    decreases ps.len(),
{
    if ps.len() > 0 {
        let p = ps[0];
        let m1 = param_step(m, p.name@, p.typ, p.visibility);
        lemma_param_step_count(m, p.name@, p.typ, p.visibility);
        lemma_params_fold_monotone(m1, ps.drop_first());
        lemma_param_step_in_use(m, p);
        lemma_fold_in_use(m1, ps.drop_first());
    }
}

/// The names of the parameters `ps`.
pub open spec fn param_names(ps: Seq<AbiParameter>) -> Set<Seq<char>> {
    ps.map_values(|p: AbiParameter| p.name@).to_set()
}

/// After the parameters are taken in, witnesses are recorded for the names recorded before
/// and for the parameters' names, and for no other name.
pub proof fn lemma_fold_names(m: EvaluatorModel, ps: Seq<AbiParameter>)
    requires
        !params_refused(ps),
    ensures
        params_fold(m, ps).param_witnesses.dom() == m.param_witnesses.dom().union(
            param_names(ps),
        ),
    decreases ps.len(),
{
    if ps.len() == 0 {
        assert(param_names(ps) =~= Set::<Seq<char>>::empty());
        assert(m.param_witnesses.dom().union(param_names(ps)) =~= m.param_witnesses.dom());
    } else {
        let p = ps[0];
        let m1 = param_step(m, p.name@, p.typ, p.visibility);
        let rest = ps.drop_first();
        lemma_param_step_count(m, p.name@, p.typ, p.visibility);
        lemma_fold_names(m1, rest);
        let ns = ps.map_values(|p: AbiParameter| p.name@);
        let nr = rest.map_values(|p: AbiParameter| p.name@);
        assert(nr =~= ns.drop_first());
        assert forall|n: Seq<char>| param_names(ps).contains(n) <==> (n == p.name@
            || param_names(rest).contains(n)) by {
            if ns.contains(n) {
                let i = choose|i: int| 0 <= i < ns.len() && ns[i] == n;
                if i > 0 {
                    assert(nr[i - 1] == n);
                }
            }
            if nr.contains(n) {
                let i = choose|i: int| 0 <= i < nr.len() && nr[i] == n;
                assert(ns[i + 1] == n);
            }
            if n == p.name@ {
                assert(ns[0] == n);
            }
        }
        assert(params_fold(m, ps).param_witnesses.dom() =~= m.param_witnesses.dom().union(
            param_names(ps),
        ));
    }
}

/// The indices of the witnesses recorded in `pw` for the public parameters among `ps`.
pub open spec fn public_union(pw: Map<Seq<char>, Seq<Witness>>, ps: Seq<AbiParameter>) -> Set<u32>
    decreases ps.len(),
{
    if ps.len() == 0 {
        Set::empty()
    } else {
        let here = if ps[0].visibility == AbiVisibility::Public {
            indices(pw[ps[0].name@]).to_set()
        } else {
            Set::empty()
        };
        here.union(public_union(pw, ps.drop_first()))
    }
}

/// Taking in parameters with distinct names adds to the public parameters exactly the
/// witnesses of the public ones.
pub proof fn lemma_fold_public(m: EvaluatorModel, ps: Seq<AbiParameter>)
    requires
        in_use(m),
        distinct_names(ps),
        forall|j: int| 0 <= j < ps.len() ==> !m.param_witnesses.dom().contains((#[trigger] ps[j]).name@),
        params_fold(m, ps).current_witness_index <= u32::MAX,
        !params_refused(ps),
    ensures
        params_fold(m, ps).public_parameters == m.public_parameters.union(
            public_union(params_fold(m, ps).param_witnesses, ps),
        ),
    decreases ps.len(),
{
    let mf = params_fold(m, ps);
    if ps.len() == 0 {
        assert(m.public_parameters.union(public_union(mf.param_witnesses, ps)) =~= m.public_parameters);
    } else {
        let p = ps[0];
        let k = p.name@;
        let m1 = param_step(m, k, p.typ, p.visibility);
        let rest = ps.drop_first();
        assert(mf == params_fold(m1, rest));
        lemma_param_step_count(m, k, p.typ, p.visibility);
        lemma_params_fold_monotone(m1, rest);
        lemma_param_step_in_use(m, p);
        assert forall|j: int| 0 <= j < rest.len() implies (#[trigger] rest[j]).name@ != k by {
            assert(rest[j] == ps[j + 1]);
        }
        lemma_fold_keeps(m1, rest, k);
        assert forall|j: int| 0 <= j < rest.len() implies !m1.param_witnesses.dom().contains(
            (#[trigger] rest[j]).name@,
        ) by {
            assert(rest[j] == ps[j + 1]);
        }
        assert(distinct_names(rest)) by {
            assert forall|a: int, b: int| 0 <= a < b < rest.len() implies rest[a].name@
                != rest[b].name@ by {
                assert(rest[a] == ps[a + 1] && rest[b] == ps[b + 1]);
            }
        }
        lemma_fold_public(m1, rest);
        assert(mf.param_witnesses[k] == m1.param_witnesses[k]);
        assert(mf.public_parameters =~= m.public_parameters.union(
            public_union(mf.param_witnesses, ps),
        ));
    }
}

} // verus!
