use vstd::prelude::*;

verus! {

/// A compiled MOSFET: the traces of its base and of its two emitter/collector sides.
#[derive(Clone, Copy, Debug, PartialEq, Eq, Structural)]
pub struct Gate {
    pub is_npn: bool,
    pub base_trace: usize,
    pub left_ec_trace: usize,
    pub right_ec_trace: usize,
}

/// All traces a gate refers to exist.
pub open spec fn spec_gates_in_range(gates: Seq<Gate>, n_traces: int) -> bool {
    forall|i: int| 0 <= i < gates.len() ==> {
        &&& (#[trigger] gates[i]).base_trace < n_traces
        &&& gates[i].left_ec_trace < n_traces
        &&& gates[i].right_ec_trace < n_traces
    }
}

/// Every high trace of `a` is high in `b`.
pub open spec fn spec_subset(a: Seq<bool>, b: Seq<bool>) -> bool {
    forall|t: int| 0 <= t < a.len() && #[trigger] a[t] ==> b[t]
}

/// No conducting gate connects a high trace with a low one.
pub open spec fn spec_closed(gates: Seq<Gate>, gate_states: Seq<bool>, ts: Seq<bool>) -> bool {
    forall|i: int| 0 <= i < gates.len() && #[trigger] gate_states[i]
        ==> ts[gates[i].left_ec_trace as int] == ts[gates[i].right_ec_trace as int]
}

/// `result` is the propagation of the high traces of `init` through the conducting gates: the
/// least set of high traces that contains those of `init` and that no conducting gate connects
/// with a low trace.
pub open spec fn spec_is_propagation(gates: Seq<Gate>, gate_states: Seq<bool>, init: Seq<bool>, result: Seq<bool>) -> bool {
    &&& result.len() == init.len()
    &&& spec_subset(init, result)
    &&& spec_closed(gates, gate_states, result)
    &&& forall|s: Seq<bool>| #![trigger spec_closed(gates, gate_states, s)]
        s.len() == init.len() && spec_subset(init, s) && spec_closed(gates, gate_states, s) ==> spec_subset(result, s)
}

/// The number of low traces.
pub open spec fn spec_count_low(ts: Seq<bool>) -> nat
    decreases ts.len(),
{
    if ts.len() == 0 {
        0
    } else {
        spec_count_low(ts.drop_last()) + if ts.last() { 0nat } else { 1nat }
    }
}

proof fn lemma_count_low_raise(ts: Seq<bool>, t: int)
    requires
        0 <= t < ts.len(),
    ensures
        !ts[t] ==> spec_count_low(ts.update(t, true)) + 1 == spec_count_low(ts),
        ts[t] ==> ts.update(t, true) == ts,
    decreases ts.len(),
{
    if ts[t] {
        assert(ts.update(t, true) =~= ts);
    } else {
        if t < ts.len() - 1 {
            lemma_count_low_raise(ts.drop_last(), t);
            assert(ts.update(t, true).drop_last() =~= ts.drop_last().update(t, true));
        } else {
            assert(ts.update(t, true).drop_last() =~= ts.drop_last());
        }
    }
}

/// Propagates high traces through the conducting gates until no conducting gate connects a high
/// trace with a low one (see `spec_is_propagation`).
pub fn propagate_high(gates: &Vec<Gate>, gate_states: &Vec<bool>, trace_states: &mut Vec<bool>)
    requires
        gate_states@.len() == gates@.len(),
        spec_gates_in_range(gates@, old(trace_states)@.len() as int),
    ensures
        spec_is_propagation(gates@, gate_states@, old(trace_states)@, final(trace_states)@),
{
    let ghost init = trace_states@;
    let mut change = true;
    while change
        invariant
            gate_states@.len() == gates@.len(),
            spec_gates_in_range(gates@, init.len() as int),
            trace_states@.len() == init.len(),
            spec_subset(init, trace_states@),
            forall|s: Seq<bool>| #![trigger spec_closed(gates@, gate_states@, s)]
                s.len() == init.len() && spec_subset(init, s) && spec_closed(gates@, gate_states@, s)
                    ==> spec_subset(trace_states@, s),
            !change ==> spec_closed(gates@, gate_states@, trace_states@),
        decreases spec_count_low(trace_states@) + if change { 1int } else { 0int },
    {
        let ghost start = trace_states@;
        change = false;

        let mut i: usize = 0;
        while i < gates.len()
            invariant
                gate_states@.len() == gates@.len(),
                spec_gates_in_range(gates@, init.len() as int),
                trace_states@.len() == init.len(),
                start.len() == init.len(),
                i <= gates@.len(),
                spec_subset(init, trace_states@),
                spec_subset(start, trace_states@),
                forall|s: Seq<bool>| #![trigger spec_closed(gates@, gate_states@, s)]
                    s.len() == init.len() && spec_subset(init, s) && spec_closed(gates@, gate_states@, s)
                        ==> spec_subset(trace_states@, s),
                !change ==> trace_states@ == start,
                !change ==> forall|k: int| 0 <= k < i && #[trigger] gate_states@[k]
                    ==> trace_states@[gates@[k].left_ec_trace as int] == trace_states@[gates@[k].right_ec_trace as int],
                change ==> spec_count_low(trace_states@) < spec_count_low(start),
            decreases gates@.len() - i,
        {
            // A gate that isn't open is ignored.
            if gate_states[i] {
                let gate = gates[i];
                let left = trace_states[gate.left_ec_trace];
                let right = trace_states[gate.right_ec_trace];
                let high = left || right;
                let ghost before = trace_states@;
                change = change || left != right;
                trace_states.set(gate.left_ec_trace, high);
                trace_states.set(gate.right_ec_trace, high);
                proof {
                    let l = gate.left_ec_trace as int;
                    let r = gate.right_ec_trace as int;
                    assert(gates@[i as int] == gate);
                    let mid = before.update(l, high);
                    if left == right {
                        assert(mid =~= before);
                        assert(trace_states@ =~= before);
                    } else {
                        if !left {
                            lemma_count_low_raise(before, l);
                            lemma_count_low_raise(mid, r);
                        } else {
                            lemma_count_low_raise(before, l);
                            lemma_count_low_raise(mid, r);
                        }
                        assert forall|s: Seq<bool>| #![trigger spec_closed(gates@, gate_states@, s)]
                            s.len() == init.len() && spec_subset(init, s) && spec_closed(gates@, gate_states@, s)
                                implies spec_subset(trace_states@, s) by {
                            assert(spec_subset(before, s));
                            assert(s[l] == s[r]);
                            assert forall|t: int| 0 <= t < trace_states@.len() && #[trigger] trace_states@[t] implies s[t] by {
                                if t != l && t != r {
                                    assert(before[t]);
                                } else if left {
                                    assert(s[l]);
                                } else {
                                    assert(s[r]);
                                }
                            }
                        }
                    }
                    assert(spec_subset(start, trace_states@));
                }
            }
            i = i + 1;
        }
    }
}

/// Sets each gate conducting when its base trace is high (NPN) or low (PNP).
pub fn update_gate_states(gates: &Vec<Gate>, trace_states: &Vec<bool>, gate_states: &mut Vec<bool>)
    requires
        old(gate_states)@.len() == gates@.len(),
        spec_gates_in_range(gates@, trace_states@.len() as int),
    ensures
        final(gate_states)@.len() == gates@.len(),
        forall|i: int| 0 <= i < gates@.len() ==> #[trigger] final(gate_states)@[i] == if gates@[i].is_npn {
            trace_states@[gates@[i].base_trace as int]
        } else {
            !trace_states@[gates@[i].base_trace as int]
        },
{
    let mut i: usize = 0;
    while i < gates.len()
        invariant
            gate_states@.len() == gates@.len(),
            spec_gates_in_range(gates@, trace_states@.len() as int),
            i <= gates@.len(),
            forall|k: int| 0 <= k < i ==> #[trigger] gate_states@[k] == if gates@[k].is_npn {
                trace_states@[gates@[k].base_trace as int]
            } else {
                !trace_states@[gates@[k].base_trace as int]
            },
        decreases gates@.len() - i,
    {
        let gate = gates[i];
        let base = trace_states[gate.base_trace];
        gate_states.set(i, if gate.is_npn { base } else { !base });
        i = i + 1;
    }
}

/// There is only one propagation of a set of high traces.
pub proof fn lemma_propagation_unique(gates: Seq<Gate>, gate_states: Seq<bool>, init: Seq<bool>, r1: Seq<bool>, r2: Seq<bool>)
    requires
        spec_is_propagation(gates, gate_states, init, r1),
        spec_is_propagation(gates, gate_states, init, r2),
    ensures
        r1 == r2,
{
    assert(spec_closed(gates, gate_states, r1));
    assert(spec_closed(gates, gate_states, r2));
    assert(spec_subset(r1, r2));
    assert(spec_subset(r2, r1));
    assert forall|t: int| 0 <= t < r1.len() implies r1[t] == r2[t] by {
        if r1[t] {
            assert(r2[t]);
        }
        if r2[t] {
            assert(r1[t]);
        }
    }
    assert(r1 =~= r2);
}

} // verus!
