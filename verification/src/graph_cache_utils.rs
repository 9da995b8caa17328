//! Grouping of graph-cache query results into the host's names-and-types
//! shape: the distinct endpoint names in lexicographic order, each paired
//! with the sorted set of payload type names seen under it.

use vstd::prelude::*;
use vstd::string::StrSliceExecFns;
use vstd::string::StringExecFns;

use crate::endpoint_info::EndpointInfo;
use crate::endpoint_info::EndpointInfoView;

verus! {

/// Strict lexicographic order on character sequences, by scalar value; a
/// proper prefix sorts first.
pub open spec fn lex_lt(a: Seq<char>, b: Seq<char>) -> bool
    decreases a.len(),
{
    if b.len() == 0 {
        false
    } else if a.len() == 0 {
        true
    } else if a[0] != b[0] {
        (a[0] as u32) < (b[0] as u32)
    } else {
        lex_lt(a.drop_first(), b.drop_first())
    }
}

/// Lexicographic order is strict: nothing sorts before itself, so `a < b`
/// implies `a != b`.
pub proof fn lemma_lex_irreflexive(a: Seq<char>)
    ensures
        !lex_lt(a, a),
    decreases a.len(),
{
    if a.len() > 0 {
        lemma_lex_irreflexive(a.drop_first());
    }
}

/// Lexicographic order is transitive.
pub proof fn lemma_lex_transitive(a: Seq<char>, b: Seq<char>, c: Seq<char>)
    requires
        lex_lt(a, b),
        lex_lt(b, c),
    ensures
        lex_lt(a, c),
    decreases a.len() + b.len() + c.len(),
{
    if c.len() == 0 {
    } else if b.len() == 0 {
    } else if a.len() == 0 {
    } else {
        if a[0] == b[0] && b[0] == c[0] {
            lemma_lex_transitive(a.drop_first(), b.drop_first(), c.drop_first());
        }
    }
}

/// Three-way lexicographic comparison of two strings: -1 for less, 0 for
/// equal, 1 for greater.
pub fn str_cmp(a: &str, b: &str) -> (r: i8)
    ensures
        r == -1 || r == 0 || r == 1,
        (r == -1) <==> lex_lt(a@, b@),
        (r == 0) <==> a@ == b@,
        (r == 1) <==> lex_lt(b@, a@),
{
    let an = a.unicode_len();
    let bn = b.unicode_len();
    let mut i: usize = 0;
    proof {
        assert(a@.skip(0) =~= a@);
        assert(b@.skip(0) =~= b@);
    }
    loop
        invariant
            i <= an,
            i <= bn,
            an == a@.len(),
            bn == b@.len(),
            lex_lt(a@, b@) == lex_lt(a@.skip(i as int), b@.skip(i as int)),
            lex_lt(b@, a@) == lex_lt(b@.skip(i as int), a@.skip(i as int)),
            forall|j: int| 0 <= j < i ==> a@[j] == b@[j],
        decreases an - i,
    {
        if i >= bn {
            if i >= an {
                proof {
                    assert(a@ =~= b@);
                }
                return 0;
            }
            proof {
                assert(b@.skip(i as int).len() == 0);
                assert(a@.skip(i as int).len() > 0);
                assert(a@.len() != b@.len());
            }
            return 1;
        }
        if i >= an {
            proof {
                assert(a@.skip(i as int).len() == 0);
                assert(b@.skip(i as int).len() > 0);
                assert(a@.len() != b@.len());
            }
            return -1;
        }
        let ca = a.get_char(i);
        let cb = b.get_char(i);
        proof {
            assert(a@.skip(i as int)[0] == a@[i as int]);
            assert(b@.skip(i as int)[0] == b@[i as int]);
        }
        if ca != cb {
            proof {
                assert((ca as u32) != (cb as u32)) by {
                    if (ca as u32) == (cb as u32) {
                        assert(ca == cb);
                    }
                }
                if a@ == b@ {
                    assert(a@[i as int] == b@[i as int]);
                }
            }
            if (ca as u32) < (cb as u32) {
                return -1;
            }
            return 1;
        }
        proof {
            assert(a@.skip(i as int).drop_first() =~= a@.skip(i + 1));
            assert(b@.skip(i as int).drop_first() =~= b@.skip(i + 1));
        }
        i = i + 1;
    }
}

/// The views of a names-and-types list.
pub open spec fn nt_views(r: Seq<(String, Vec<String>)>) -> Seq<(Seq<char>, Seq<Seq<char>>)> {
    r.map_values(|p: (String, Vec<String>)| (p.0@, p.1@.map_values(|s: String| s@)))
}

/// Whether the list pairs name `n` with type `t`.
pub open spec fn pair_in(nt: Seq<(Seq<char>, Seq<Seq<char>>)>, n: Seq<char>, t: Seq<char>) -> bool {
    exists|i: int, j: int|
        0 <= i < nt.len() && (#[trigger] nt[i]).0 == n && 0 <= j < nt[i].1.len() && (
        #[trigger] nt[i].1[j]) == t
}

/// Whether some identity in the list has endpoint name `n` and type `t`.
pub open spec fn infos_have(infos: Seq<EndpointInfoView>, n: Seq<char>, t: Seq<char>) -> bool {
    exists|k: int|
        0 <= k < infos.len() && (#[trigger] infos[k]).endpoint_name == n && infos[k].endpoint_type
            == t
}

/// Keys strictly ascending in lexicographic order.
pub open spec fn keys_sorted(nt: Seq<(Seq<char>, Seq<Seq<char>>)>) -> bool {
    forall|i: int, j: int|
        0 <= i < j < nt.len() ==> lex_lt((#[trigger] nt[i]).0, (#[trigger] nt[j]).0)
}

/// Every type list strictly ascending in lexicographic order.
pub open spec fn types_sorted(nt: Seq<(Seq<char>, Seq<Seq<char>>)>) -> bool {
    forall|i: int, j: int, k: int|
        0 <= i < nt.len() && 0 <= j < k < nt[i].1.len() ==> lex_lt(
            (#[trigger] nt[i].1[j]),
            (#[trigger] nt[i].1[k]),
        )
}

/// Strictly ascending sequence of strings.
spec fn strs_sorted(s: Seq<Seq<char>>) -> bool {
    forall|i: int, j: int| 0 <= i < j < s.len() ==> lex_lt(#[trigger] s[i], #[trigger] s[j])
}

spec fn str_views(v: Seq<String>) -> Seq<Seq<char>> {
    v.map_values(|s: String| s@)
}

/// Inserts `t` into a sorted list of strings, keeping it sorted and
/// duplicate-free; membership afterwards is membership before plus `t`.
fn insert_sorted(types: &mut Vec<String>, t: &str)
    requires
        strs_sorted(str_views(old(types)@)),
    ensures
        strs_sorted(str_views(final(types)@)),
        forall|x: Seq<char>|
            str_views(final(types)@).contains(x) <==> (str_views(old(types)@).contains(x) || x
                == t@),
{
    let n = types.len();
    let mut p: usize = 0;
    while p < n && str_cmp(types[p].as_str(), t) == -1
        invariant
            p <= n,
            n == types@.len(),
            types@ == old(types)@,
            forall|j: int| 0 <= j < p ==> lex_lt(#[trigger] str_views(types@)[j], t@),
        decreases n - p,
    {
        proof {
            assert(str_views(types@)[p as int] == types@[p as int]@);
        }
        p = p + 1;
    }
    if p < n {
        let c = str_cmp(types[p].as_str(), t);
        if c == 0 {
            proof {
                assert(str_views(types@)[p as int] == t@);
                assert(str_views(types@).contains(t@));
            }
            return ;
        }
        proof {
            // Not equal, and the scan stopped, so the element sorts
            // strictly after the new string.
            assert(str_views(types@)[p as int] == types@[p as int]@);
            assert(lex_lt(t@, str_views(types@)[p as int]));
        }
    }
    let ts = String::from_str(t);
    let ghost old_views = str_views(types@);
    types.insert(p, ts);
    proof {
        let new_views = str_views(types@);
        assert(new_views =~= old_views.insert(p as int, t@));
        assert forall|i: int, j: int| 0 <= i < j < new_views.len() implies lex_lt(
            #[trigger] new_views[i],
            #[trigger] new_views[j],
        ) by {
            if j < p {
                assert(new_views[i] == old_views[i] && new_views[j] == old_views[j]);
            } else if i < p && j == p {
                assert(new_views[i] == old_views[i]);
                assert(lex_lt(old_views[i], t@));
            } else if i < p && j > p {
                assert(new_views[i] == old_views[i] && new_views[j] == old_views[j - 1]);
                assert(lex_lt(old_views[i], old_views[j - 1]));
            } else if i == p && j > p {
                assert(new_views[j] == old_views[j - 1]);
                if j - 1 == p {
                    assert(lex_lt(t@, old_views[p as int]));
                } else {
                    assert(lex_lt(old_views[p as int], old_views[j - 1]));
                    lemma_lex_transitive(t@, old_views[p as int], old_views[j - 1]);
                }
            } else {
                assert(new_views[i] == old_views[i - 1] && new_views[j] == old_views[j - 1]);
                assert(lex_lt(old_views[i - 1], old_views[j - 1]));
            }
        }
        assert forall|x: Seq<char>| new_views.contains(x) implies (old_views.contains(x) || x
            == t@) by {
            let w = choose|w: int| 0 <= w < new_views.len() && new_views[w] == x;
            if w < p {
                assert(old_views[w] == x);
            } else if w > p {
                assert(old_views[w - 1] == x);
            }
        }
        assert forall|x: Seq<char>| (old_views.contains(x) || x == t@) implies new_views.contains(
            x,
        ) by {
            if x == t@ {
                assert(new_views[p as int] == x);
            } else if old_views.contains(x) {
                let w = choose|w: int| 0 <= w < old_views.len() && old_views[w] == x;
                if w < p {
                    assert(new_views[w] == x);
                } else {
                    assert(new_views[w + 1] == x);
                }
            }
        }
    }
}

/// Groups a list of identities into the host's names-and-types shape: one
/// entry per distinct endpoint name, names in ascending lexicographic
/// order, each with the ascending, duplicate-free, non-empty list of
/// payload type names seen under that endpoint name. A name/type pair
/// appears in the result exactly when some identity in the input carries
/// it; since no entry has an empty type list, every listed name is carried
/// by some input identity, and an empty input leaves the output empty.
pub fn get_names_and_types(infos: &Vec<EndpointInfo>) -> (r: Vec<(String, Vec<String>)>)
    ensures
        keys_sorted(nt_views(r@)),
        types_sorted(nt_views(r@)),
        forall|i: int| 0 <= i < nt_views(r@).len() ==> (#[trigger] nt_views(r@)[i]).1.len() >= 1,
        forall|n: Seq<char>, t: Seq<char>|
            pair_in(nt_views(r@), n, t) <==> infos_have(
                infos@.map_values(|e: EndpointInfo| e@),
                n,
                t,
            ),
{
    let ghost iviews = infos@.map_values(|e: EndpointInfo| e@);
    let m = infos.len();
    let mut r: Vec<(String, Vec<String>)> = Vec::new();
    let mut k: usize = 0;
    proof {
        assert(nt_views(r@) =~= Seq::<(Seq<char>, Seq<Seq<char>>)>::empty());
    }
    while k < m
        invariant
            k <= m,
            m == infos@.len(),
            iviews == infos@.map_values(|e: EndpointInfo| e@),
            keys_sorted(nt_views(r@)),
            types_sorted(nt_views(r@)),
            forall|i: int|
                0 <= i < nt_views(r@).len() ==> (#[trigger] nt_views(r@)[i]).1.len() >= 1,
            forall|n: Seq<char>, t: Seq<char>|
                pair_in(nt_views(r@), n, t) <==> infos_have(iviews.take(k as int), n, t),
        decreases m - k,
    {
        let name = &infos[k].endpoint_name;
        let tname = &infos[k].endpoint_type;
        let ghost old_nt = nt_views(r@);
        let n = r.len();
        let mut p: usize = 0;
        while p < n && str_cmp(r[p].0.as_str(), name.as_str()) == -1
            invariant
                p <= n,
                n == r@.len(),
                nt_views(r@) == old_nt,
                forall|j: int| 0 <= j < p ==> lex_lt((#[trigger] nt_views(r@)[j]).0, name@),
            decreases n - p,
        {
            proof {
                assert(nt_views(r@)[p as int].0 == r@[p as int].0@);
            }
            p = p + 1;
        }
        let mut key_equal = false;
        if p < n {
            let c = str_cmp(r[p].0.as_str(), name.as_str());
            if c == 0 {
                key_equal = true;
                proof {
                    assert(nt_views(r@)[p as int].0 == name@);
                }
            } else {
                proof {
                    assert(nt_views(r@)[p as int].0 == r@[p as int].0@);
                    assert(lex_lt(name@, nt_views(r@)[p as int].0));
                }
            }
        }
        if key_equal {
            let mut entry = r.remove(p);
            proof {
                assert(strs_sorted(str_views(entry.1@))) by {
                    assert forall|x: int, y: int|
                        0 <= x < y < str_views(entry.1@).len() implies lex_lt(
                        #[trigger] str_views(entry.1@)[x],
                        #[trigger] str_views(entry.1@)[y],
                    ) by {
                        assert(old_nt[p as int].1[x] == str_views(entry.1@)[x]);
                        assert(old_nt[p as int].1[y] == str_views(entry.1@)[y]);
                    }
                }
            }
            insert_sorted(&mut entry.1, tname.as_str());
            let ghost entry_types = str_views(entry.1@);
            r.insert(p, entry);
            proof {
                let new_nt = nt_views(r@);
                assert(new_nt =~= old_nt.update(p as int, (name@, entry_types)));
                assert forall|i: int, j: int| 0 <= i < j < new_nt.len() implies lex_lt(
                    (#[trigger] new_nt[i]).0,
                    (#[trigger] new_nt[j]).0,
                ) by {
                    assert(new_nt[i].0 == old_nt[i].0);
                    assert(new_nt[j].0 == old_nt[j].0);
                }
                assert forall|i: int, x: int, y: int|
                    0 <= i < new_nt.len() && 0 <= x < y < new_nt[i].1.len() implies lex_lt(
                    (#[trigger] new_nt[i].1[x]),
                    (#[trigger] new_nt[i].1[y]),
                ) by {
                    if i != p {
                        assert(new_nt[i] == old_nt[i]);
                    } else {
                        assert(new_nt[i].1 == entry_types);
                        assert(str_views(entry.1@).contains(entry_types[x]));
                    }
                }
                assert forall|i: int| 0 <= i < new_nt.len() implies (#[trigger] new_nt[i]).1.len()
                    >= 1 by {
                    if i != p {
                        assert(new_nt[i] == old_nt[i]);
                    } else {
                        assert(str_views(entry.1@).contains(tname@));
                    }
                }
                assert forall|nn: Seq<char>, tt: Seq<char>|
                    pair_in(new_nt, nn, tt) implies infos_have(iviews.take(k + 1), nn, tt) by {
                    let (wi, wj) = choose|wi: int, wj: int|
                        0 <= wi < new_nt.len() && (#[trigger] new_nt[wi]).0 == nn && 0 <= wj
                            < new_nt[wi].1.len() && (#[trigger] new_nt[wi].1[wj]) == tt;
                    if wi != p {
                        assert(new_nt[wi] == old_nt[wi]);
                        assert(pair_in(old_nt, nn, tt));
                        let wk = choose|wk: int|
                            0 <= wk < iviews.take(k as int).len() && (#[trigger] iviews.take(
                                k as int,
                            )[wk]).endpoint_name == nn && iviews.take(k as int)[wk].endpoint_type
                                == tt;
                        assert(iviews.take(k + 1)[wk] == iviews.take(k as int)[wk]);
                    } else {
                        // The refreshed entry: its types are the old types
                        // plus the new one.
                        assert(entry_types.contains(tt));
                        if tt == tname@ {
                            assert(iviews.take(k + 1)[k as int] == iviews[k as int]);
                            assert(iviews[k as int].endpoint_name == nn);
                            assert(iviews[k as int].endpoint_type == tt);
                        } else {
                            assert(old_nt[p as int].1.contains(tt));
                            let wj2 = choose|wj2: int|
                                0 <= wj2 < old_nt[p as int].1.len() && old_nt[p as int].1[wj2]
                                    == tt;
                            assert(pair_in(old_nt, nn, tt));
                            let wk = choose|wk: int|
                                0 <= wk < iviews.take(k as int).len() && (#[trigger] iviews.take(
                                    k as int,
                                )[wk]).endpoint_name == nn && iviews.take(
                                    k as int,
                                )[wk].endpoint_type == tt;
                            assert(iviews.take(k + 1)[wk] == iviews.take(k as int)[wk]);
                        }
                    }
                }
                assert forall|nn: Seq<char>, tt: Seq<char>|
                    infos_have(iviews.take(k + 1), nn, tt) implies pair_in(new_nt, nn, tt) by {
                    let wk = choose|wk: int|
                        0 <= wk < iviews.take(k + 1).len() && (#[trigger] iviews.take(
                            k + 1,
                        )[wk]).endpoint_name == nn && iviews.take(k + 1)[wk].endpoint_type == tt;
                    if wk < k {
                        assert(iviews.take(k as int)[wk] == iviews.take(k + 1)[wk]);
                        assert(infos_have(iviews.take(k as int), nn, tt));
                        assert(pair_in(old_nt, nn, tt));
                        let (wi, wj) = choose|wi: int, wj: int|
                            0 <= wi < old_nt.len() && (#[trigger] old_nt[wi]).0 == nn && 0 <= wj
                                < old_nt[wi].1.len() && (#[trigger] old_nt[wi].1[wj]) == tt;
                        if wi != p {
                            assert(new_nt[wi].0 == nn);
                            assert(new_nt[wi].1[wj] == tt);
                        } else {
                            assert(str_views(entry.1@).contains(tt)) by {
                                assert(old_nt[p as int].1.contains(tt));
                            }
                            let wj2 = choose|wj2: int|
                                0 <= wj2 < entry_types.len() && entry_types[wj2] == tt;
                            assert(new_nt[p as int].0 == nn);
                            assert(new_nt[p as int].1[wj2] == tt);
                        }
                    } else {
                        assert(iviews.take(k + 1)[k as int] == iviews[k as int]);
                        assert(nn == name@ && tt == tname@);
                        assert(entry_types.contains(tt)) by {
                            assert(str_views(entry.1@).contains(tname@));
                        }
                        let wj2 = choose|wj2: int|
                            0 <= wj2 < entry_types.len() && entry_types[wj2] == tt;
                        assert(new_nt[p as int].0 == nn);
                        assert(new_nt[p as int].1[wj2] == tt);
                    }
                }
            }
        } else {
            let mut ts: Vec<String> = Vec::new();
            ts.push(String::from_str(tname.as_str()));
            let ghost singleton = str_views(ts@);
            r.insert(p, (String::from_str(name.as_str()), ts));
            proof {
                assert(singleton =~= seq![tname@]);
                let new_nt = nt_views(r@);
                assert(new_nt =~= old_nt.insert(p as int, (name@, singleton)));
                assert forall|i: int, j: int| 0 <= i < j < new_nt.len() implies lex_lt(
                    (#[trigger] new_nt[i]).0,
                    (#[trigger] new_nt[j]).0,
                ) by {
                    if j < p {
                        assert(new_nt[i] == old_nt[i] && new_nt[j] == old_nt[j]);
                    } else if i < p && j == p {
                        assert(new_nt[i] == old_nt[i]);
                        assert(lex_lt(old_nt[i].0, name@));
                    } else if i < p && j > p {
                        assert(new_nt[i] == old_nt[i] && new_nt[j] == old_nt[j - 1]);
                        assert(lex_lt(old_nt[i].0, old_nt[j - 1].0));
                    } else if i == p && j > p {
                        assert(new_nt[j] == old_nt[j - 1]);
                        if j - 1 == p {
                            assert(lex_lt(name@, old_nt[p as int].0));
                        } else {
                            assert(lex_lt(old_nt[p as int].0, old_nt[j - 1].0));
                            lemma_lex_transitive(name@, old_nt[p as int].0, old_nt[j - 1].0);
                        }
                    } else {
                        assert(new_nt[i] == old_nt[i - 1] && new_nt[j] == old_nt[j - 1]);
                        assert(lex_lt(old_nt[i - 1].0, old_nt[j - 1].0));
                    }
                }
                assert forall|i: int, x: int, y: int|
                    0 <= i < new_nt.len() && 0 <= x < y < new_nt[i].1.len() implies lex_lt(
                    (#[trigger] new_nt[i].1[x]),
                    (#[trigger] new_nt[i].1[y]),
                ) by {
                    if i < p {
                        assert(new_nt[i] == old_nt[i]);
                    } else if i > p {
                        assert(new_nt[i] == old_nt[i - 1]);
                    }
                }
                assert forall|i: int| 0 <= i < new_nt.len() implies (#[trigger] new_nt[i]).1.len()
                    >= 1 by {
                    if i < p {
                        assert(new_nt[i] == old_nt[i]);
                    } else if i > p {
                        assert(new_nt[i] == old_nt[i - 1]);
                    } else {
                        assert(new_nt[i].1 == singleton);
                    }
                }
                assert forall|nn: Seq<char>, tt: Seq<char>|
                    pair_in(new_nt, nn, tt) implies infos_have(iviews.take(k + 1), nn, tt) by {
                    let (wi, wj) = choose|wi: int, wj: int|
                        0 <= wi < new_nt.len() && (#[trigger] new_nt[wi]).0 == nn && 0 <= wj
                            < new_nt[wi].1.len() && (#[trigger] new_nt[wi].1[wj]) == tt;
                    if wi == p {
                        assert(nn == name@ && tt == tname@);
                        assert(iviews.take(k + 1)[k as int] == iviews[k as int]);
                    } else {
                        let oi = if wi < p {
                            wi
                        } else {
                            wi - 1
                        };
                        assert(new_nt[wi] == old_nt[oi]);
                        assert(pair_in(old_nt, nn, tt));
                        let wk = choose|wk: int|
                            0 <= wk < iviews.take(k as int).len() && (#[trigger] iviews.take(
                                k as int,
                            )[wk]).endpoint_name == nn && iviews.take(k as int)[wk].endpoint_type
                                == tt;
                        assert(iviews.take(k + 1)[wk] == iviews.take(k as int)[wk]);
                    }
                }
                assert forall|nn: Seq<char>, tt: Seq<char>|
                    infos_have(iviews.take(k + 1), nn, tt) implies pair_in(new_nt, nn, tt) by {
                    let wk = choose|wk: int|
                        0 <= wk < iviews.take(k + 1).len() && (#[trigger] iviews.take(
                            k + 1,
                        )[wk]).endpoint_name == nn && iviews.take(k + 1)[wk].endpoint_type == tt;
                    if wk < k {
                        assert(iviews.take(k as int)[wk] == iviews.take(k + 1)[wk]);
                        assert(infos_have(iviews.take(k as int), nn, tt));
                        assert(pair_in(old_nt, nn, tt));
                        let (wi, wj) = choose|wi: int, wj: int|
                            0 <= wi < old_nt.len() && (#[trigger] old_nt[wi]).0 == nn && 0 <= wj
                                < old_nt[wi].1.len() && (#[trigger] old_nt[wi].1[wj]) == tt;
                        let ni = if wi < p {
                            wi
                        } else {
                            wi + 1
                        };
                        assert(new_nt[ni] == old_nt[wi]);
                        assert(new_nt[ni].0 == nn);
                        assert(new_nt[ni].1[wj] == tt);
                    } else {
                        assert(iviews.take(k + 1)[k as int] == iviews[k as int]);
                        assert(nn == name@ && tt == tname@);
                        assert(new_nt[p as int].0 == nn);
                        assert(new_nt[p as int].1[0] == tt);
                    }
                }
            }
        }
        k = k + 1;
    }
    proof {
        assert(iviews.take(m as int) =~= iviews);
    }
    r
}

} // verus!
