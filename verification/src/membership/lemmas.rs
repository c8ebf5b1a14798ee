//! Facts about the id-ordered member table.

use super::{insert_pos, lookup, sorted_by_id, upsert, with_status, MemberView};
use crate::text;
use vstd::prelude::*;

verus! {

/// Members before `insert_pos` have smaller ids; the one at it, if any, does
/// not.
pub proof fn lemma_insert_pos(ms: Seq<MemberView>, id: Seq<char>)
    ensures
        insert_pos(ms, id) <= ms.len(),
        forall|i: int| 0 <= i < insert_pos(ms, id) ==> text::str_lt(#[trigger] ms[i].id, id),
        insert_pos(ms, id) < ms.len() ==> !text::str_lt(ms[insert_pos(ms, id) as int].id, id),
    decreases ms.len(),
{
    if ms.len() > 0 && text::str_lt(ms[0].id, id) {
        let rest = ms.drop_first();
        lemma_insert_pos(rest, id);
        assert forall|i: int| 0 <= i < insert_pos(ms, id) implies text::str_lt(#[trigger] ms[i].id, id) by {
            if i > 0 {
                assert(ms[i] == rest[i - 1]);
            }
        }
    }
}

/// In an id-ordered table, the member with a given id, if any, sits at
/// `insert_pos`, and every member from there on has an id not before it.
pub proof fn lemma_sorted_pos(ms: Seq<MemberView>, id: Seq<char>)
    requires
        sorted_by_id(ms),
    ensures
        forall|k: int| 0 <= k < ms.len() && ms[k].id == id ==> k == insert_pos(ms, id),
        forall|k: int| insert_pos(ms, id) <= k < ms.len() ==> !text::str_lt(#[trigger] ms[k].id, id),
{
    lemma_insert_pos(ms, id);
    let p = insert_pos(ms, id) as int;
    assert forall|k: int| p <= k < ms.len() implies !text::str_lt(#[trigger] ms[k].id, id) by {
        if k > p {
            assert(text::str_lt(ms[p].id, ms[k].id));
            text::lemma_str_lt_order(ms[p].id, ms[k].id, id);
            text::lemma_str_lt_order(ms[p].id, id, ms[k].id);
            if text::str_lt(ms[k].id, id) {
                text::lemma_str_lt_order(ms[p].id, ms[k].id, id);
            }
        }
    }
    assert forall|k: int| 0 <= k < ms.len() && ms[k].id == id implies k == p by {
        if k < p {
            text::lemma_str_lt_order(id, id, id);
        }
        if k > p {
            assert(text::str_lt(ms[p].id, ms[k].id));
            text::lemma_str_lt_order(ms[p].id, id, id);
        }
    }
}

/// In an id-ordered table, `lookup` finds exactly the member carrying the id.
pub proof fn lemma_lookup(ms: Seq<MemberView>, id: Seq<char>)
    requires
        sorted_by_id(ms),
    ensures
        lookup(ms, id) is Some <==> exists|k: int| 0 <= k < ms.len() && ms[k].id == id,
        forall|k: int| 0 <= k < ms.len() && ms[k].id == id ==> lookup(ms, id) == Some(ms[k]),
        lookup(ms, id) matches Some(m) ==> m.id == id,
{
    lemma_sorted_pos(ms, id);
    let p = insert_pos(ms, id) as int;
    if lookup(ms, id) is Some {
        assert(ms[p].id == id);
    }
}

/// Upserting keeps the table in id order and changes exactly the member
/// with the upserted id.
pub proof fn lemma_upsert(ms: Seq<MemberView>, u: MemberView)
    requires
        sorted_by_id(ms),
    ensures
        sorted_by_id(upsert(ms, u)),
        lookup(upsert(ms, u), u.id) == Some(u),
        forall|x: Seq<char>| x != u.id ==> lookup(#[trigger] upsert(ms, u), x) == lookup(ms, x),
        upsert(ms, u).len() == if lookup(ms, u.id) is Some { ms.len() } else { ms.len() + 1 },
{
    lemma_sorted_pos(ms, u.id);
    lemma_insert_pos(ms, u.id);
    lemma_lookup(ms, u.id);
    let p = insert_pos(ms, u.id) as int;
    let n = upsert(ms, u);
    if p < ms.len() && ms[p].id == u.id {
        assert forall|i: int, j: int| 0 <= i < j < n.len() implies text::str_lt(#[trigger] n[i].id, #[trigger] n[j].id) by {
            assert(ms[i].id == n[i].id && ms[j].id == n[j].id);
        }
    } else {
        if p < ms.len() {
            text::lemma_str_lt_order(ms[p].id, u.id, u.id);
        }
        assert forall|i: int, j: int| 0 <= i < j < n.len() implies text::str_lt(#[trigger] n[i].id, #[trigger] n[j].id) by {
            if j < p {
                assert(n[i] == ms[i] && n[j] == ms[j]);
            } else if j == p {
                assert(n[i] == ms[i]);
            } else if i < p {
                assert(n[i] == ms[i] && n[j] == ms[j - 1]);
                if i < j - 1 {
                    assert(text::str_lt(ms[i].id, ms[j - 1].id));
                }
            } else if i == p {
                assert(n[j] == ms[j - 1]);
                if j - 1 > p {
                    assert(text::str_lt(ms[p].id, ms[j - 1].id));
                    text::lemma_str_lt_order(u.id, ms[p].id, ms[j - 1].id);
                }
            } else {
                assert(n[i] == ms[i - 1] && n[j] == ms[j - 1]);
                assert(text::str_lt(ms[i - 1].id, ms[j - 1].id));
            }
        }
    }
    lemma_lookup(n, u.id);
    assert(n[p] == u);
    assert forall|x: Seq<char>| x != u.id implies lookup(#[trigger] upsert(ms, u), x) == lookup(ms, x) by {
        lemma_lookup(n, x);
        lemma_lookup(ms, x);
        if lookup(ms, x) is Some {
            let k = choose|k: int| 0 <= k < ms.len() && ms[k].id == x;
            if p < ms.len() && ms[p].id == u.id {
                assert(n[k] == ms[k]);
            } else if k < p {
                assert(n[k] == ms[k]);
            } else {
                assert(n[k + 1] == ms[k]);
            }
        }
        if lookup(n, x) is Some {
            let k = choose|k: int| 0 <= k < n.len() && n[k].id == x;
            if p < ms.len() && ms[p].id == u.id {
                assert(n[k] == ms[k]);
            } else if k < p {
                assert(n[k] == ms[k]);
            } else {
                assert(k != p);
                assert(n[k] == ms[k - 1]);
            }
        }
    }
}

/// Setting a member's status keeps the table in id order and changes only
/// that member's status.
pub proof fn lemma_with_status(ms: Seq<MemberView>, id: Seq<char>, status: super::MemberStatus)
    requires
        sorted_by_id(ms),
    ensures
        sorted_by_id(with_status(ms, id, status)),
        with_status(ms, id, status).len() == ms.len(),
        lookup(with_status(ms, id, status), id) == match lookup(ms, id) {
            Some(m) => Some(MemberView { status, ..m }),
            None => None,
        },
        forall|x: Seq<char>| x != id ==> lookup(#[trigger] with_status(ms, id, status), x) == lookup(ms, x),
{
    lemma_lookup(ms, id);
    match lookup(ms, id) {
        Some(m) => {
            lemma_upsert(ms, MemberView { status, ..m });
        },
        None => {},
    }
}

} // verus!
