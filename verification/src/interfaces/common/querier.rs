//! What a bulk price query through the router decides: which oracle is asked
//! for which keys.
use vstd::prelude::*;
use crate::collections::strings_view;
use crate::common::Contract;
use crate::interfaces::router::msg::OracleResponse;
use crate::interfaces::router::registry::{OracleGroups, has_oracle};

verus! {

/// The keys, in the router's order, of the answers that name the oracle `c`.
pub open spec fn keys_answered_by(resps: Seq<OracleResponse>, c: Contract) -> Seq<Seq<char>> {
    resps.filter(|r: OracleResponse| r.oracle.same(&c)).map_values(|r: OracleResponse| r.key@)
}

/// Some answer of the router names the oracle `c`.
pub open spec fn named_by_some(resps: Seq<OracleResponse>, c: Contract) -> bool {
    exists|i: int| 0 <= i < resps.len() && #[trigger] resps[i].oracle.same(&c)
}

/// Groups the router's answers by oracle, so that each oracle is asked once
/// for all of its keys: one group per distinct oracle, in the order of first
/// appearance, each with its keys in the router's order.
pub fn group_oracle_responses(resps: &Vec<OracleResponse>) -> (g: OracleGroups)
    ensures
        g.oracles@.len() == g.keys@.len(),
        forall|a: int, b: int| #![trigger g.oracles@[a], g.oracles@[b]]
            0 <= a < g.oracles@.len() && 0 <= b < g.oracles@.len() && a != b
            ==> !g.oracles@[a].same(&g.oracles@[b]),
        forall|a: int| 0 <= a < g.oracles@.len() ==> strings_view(#[trigger] g.keys@[a]@)
            == keys_answered_by(resps@, g.oracles@[a]),
        forall|a: int| 0 <= a < g.oracles@.len() ==> named_by_some(resps@, #[trigger] g.oracles@[a]),
        forall|i: int| 0 <= i < resps@.len() ==> has_oracle(g.oracles@, (#[trigger] resps@[i]).oracle),
{
    let mut oracles: Vec<Contract> = Vec::new();
    let mut lists: Vec<Vec<String>> = Vec::new();
    let mut i: usize = 0;
    while i < resps.len()
        invariant
            i <= resps@.len(),
            oracles@.len() == lists@.len(),
            forall|a: int, b: int| #![trigger oracles@[a], oracles@[b]]
                0 <= a < oracles@.len() && 0 <= b < oracles@.len() && a != b
                ==> !oracles@[a].same(&oracles@[b]),
            forall|a: int| 0 <= a < oracles@.len() ==> strings_view(#[trigger] lists@[a]@)
                == keys_answered_by(resps@.take(i as int), oracles@[a]),
            forall|a: int| 0 <= a < oracles@.len() ==> named_by_some(resps@, #[trigger] oracles@[a]),
            forall|j: int| 0 <= j < i ==> has_oracle(oracles@, (#[trigger] resps@[j]).oracle),
        decreases resps@.len() - i,
    {
        let resp = &resps[i];
        let ghost before = resps@.take(i as int);
        proof {
            assert(resps@.take(i + 1) =~= before.push(*resp));
        }
        let mut found: Option<usize> = None;
        let mut a: usize = 0;
        while a < oracles.len()
            invariant
                a <= oracles@.len(),
                found matches Some(f) ==> f < oracles@.len() && oracles@[f as int].same(&resp.oracle),
                found is None ==> forall|b: int| 0 <= b < a ==> !(#[trigger] oracles@[b]).same(&resp.oracle),
            decreases oracles@.len() - a,
        {
            if found.is_none() && oracles[a].equals(&resp.oracle) {
                found = Some(a);
            }
            a = a + 1;
        }
        let ghost o_before = oracles@;
        let ghost l_before = lists@;
        match found {
            Some(f) => {
                let mut list = lists.remove(f);
                list.push(resp.key.clone());
                lists.insert(f, list);
                proof {
                    assert forall|b: int| 0 <= b < oracles@.len() implies strings_view(#[trigger] lists@[b]@)
                        == keys_answered_by(resps@.take(i + 1), oracles@[b]) by {
                        let pb = |r: OracleResponse| r.oracle.same(&oracles@[b]);
                        before.lemma_filter_push(*resp, pb);
                        let km = |r: OracleResponse| r.key@;
                        if b == f {
                            assert(before.filter(pb).push(*resp).map_values(km)
                                =~= before.filter(pb).map_values(km).push(resp.key@));
                            assert(lists@[b]@ == l_before[b]@.push(resp.key));
                            assert(strings_view(lists@[b]@) =~= strings_view(l_before[b]@).push(resp.key@));
                        } else {
                            assert(lists@[b] == l_before[b]);
                            assert(!pb(*resp));
                        }
                    }
                    assert forall|j: int| 0 <= j < i + 1 implies has_oracle(
                        oracles@,
                        (#[trigger] resps@[j]).oracle,
                    ) by {
                        if j == i {
                            assert(oracles@[f as int].same(&resps@[j].oracle));
                        } else {
                            assert(has_oracle(o_before, resps@[j].oracle));
                        }
                    }
                }
            },
            None => {
                let mut list: Vec<String> = Vec::new();
                list.push(resp.key.clone());
                oracles.push(resp.oracle.duplicate());
                lists.push(list);
                proof {
                    let n = o_before.len() as int;
                    assert forall|b: int| 0 <= b < oracles@.len() implies strings_view(#[trigger] lists@[b]@)
                        == keys_answered_by(resps@.take(i + 1), oracles@[b]) by {
                        let pb = |r: OracleResponse| r.oracle.same(&oracles@[b]);
                        before.lemma_filter_push(*resp, pb);
                        let km = |r: OracleResponse| r.key@;
                        if b == n {
                            assert forall|j: int| 0 <= j < before.len() implies !pb(#[trigger] before[j]) by {
                                assert(before[j] == resps@[j]);
                                assert(has_oracle(o_before, resps@[j].oracle));
                                let c = choose|c: int| 0 <= c < o_before.len() && #[trigger] o_before[c].same(
                                    &resps@[j].oracle,
                                );
                                assert(!o_before[c].same(&resp.oracle));
                            }
                            before.lemma_all_neg_filter_empty(pb);
                            assert(before.filter(pb).push(*resp).map_values(km) =~= seq![resp.key@]);
                            assert(strings_view(lists@[b]@) =~= seq![resp.key@]);
                        } else {
                            assert(lists@[b] == l_before[b]);
                            assert(oracles@[b] == o_before[b]);
                            assert(!pb(*resp));
                        }
                    }
                    assert(named_by_some(resps@, oracles@[n])) by {
                        assert(resps@[i as int].oracle.same(&oracles@[n]));
                    }
                    assert forall|j: int| 0 <= j < i + 1 implies has_oracle(
                        oracles@,
                        (#[trigger] resps@[j]).oracle,
                    ) by {
                        if j == i {
                            assert(oracles@[n].same(&resps@[j].oracle));
                        } else {
                            assert(has_oracle(o_before, resps@[j].oracle));
                            let c = choose|c: int| 0 <= c < o_before.len() && #[trigger] o_before[c].same(
                                &resps@[j].oracle,
                            );
                            assert(oracles@[c] == o_before[c]);
                        }
                    }
                }
            },
        }
        i = i + 1;
    }
    proof {
        assert(resps@.take(resps@.len() as int) =~= resps@);
    }
    OracleGroups { oracles, keys: lists }
}

} // verus!
