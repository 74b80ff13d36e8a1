//! SQL text built for the user store: one statement per operation, with
//! the table name written in and values bound as placeholders.
use vstd::prelude::*;

verus! {

/// The select statement for loading one row of `table` by id.
pub open spec fn spec_query_load(table: Seq<char>, id: Seq<char>) -> Seq<char> {
    "select id, username, email, phone, date_of_birth from "@ + table + " where id = "@ + id
}

/// The select statement for loading one row of `table` by `id`.
pub fn query_load(table: String, id: String) -> (r: String)
    ensures
        r@ == spec_query_load(table@, id@),
{
    let mut q = String::from_str("select id, username, email, phone, date_of_birth from ");
    q.append(table.as_str());
    q.append(" where id = ");
    q.append(id.as_str());
    proof {
        assert(q@ =~= spec_query_load(table@, id@));
    }
    q
}

/// The insert statement for one row of `table`.
pub open spec fn spec_query_create(table: Seq<char>) -> Seq<char> {
    "insert into "@ + table + " (id, username, email, phone, date_of_birth) values (?, ?, ?, ?, ?)"@
}

/// The insert statement for one row of `table`.
pub fn query_create(table: String) -> (r: String)
    ensures
        r@ == spec_query_create(table@),
{
    let mut q = String::from_str("insert into ");
    q.append(table.as_str());
    q.append(" (id, username, email, phone, date_of_birth) values (?, ?, ?, ?, ?)");
    proof {
        assert(q@ =~= spec_query_create(table@));
    }
    q
}

/// The update statement for one row of `table`.
pub open spec fn spec_query_update(table: Seq<char>) -> Seq<char> {
    "update "@ + table + " set username = ?, email = ?, phone = ?, date_of_birth = ? where id = ?"@
}

/// The update statement for one row of `table`.
pub fn query_update(table: String) -> (r: String)
    ensures
        r@ == spec_query_update(table@),
{
    let mut q = String::from_str("update ");
    q.append(table.as_str());
    q.append(" set username = ?, email = ?, phone = ?, date_of_birth = ? where id = ?");
    proof {
        assert(q@ =~= spec_query_update(table@));
    }
    q
}

/// The delete statement for one row of `table`.
pub open spec fn spec_query_delete(table: Seq<char>) -> Seq<char> {
    "delete from "@ + table + " where id = ?"@
}

/// The `set` clauses of a patch statement: one per pre-rendered
/// key/value pair, in order.
pub open spec fn patch_clauses(pairs: Seq<(Seq<char>, Seq<char>)>) -> Seq<char>
    decreases pairs.len(),
{
    if pairs.len() == 0 {
        Seq::empty()
    } else {
        patch_clauses(pairs.drop_last()) + " set "@ + pairs.last().0 + "='"@ + pairs.last().1
            + "'"@
    }
}

/// The patch statement for one row of `table`: one `set` clause per
/// pre-rendered key/value pair, then the id filter.
pub open spec fn spec_query_patch(
    table: Seq<char>,
    id: Seq<char>,
    pairs: Seq<(Seq<char>, Seq<char>)>,
) -> Seq<char> {
    "update "@ + table + patch_clauses(pairs) + " where id='"@ + id + "'"@
}

/// The patch statement for one row of `table`, over pre-rendered
/// key/value pairs.
pub fn query_patch(table: String, id: String, pairs: &Vec<(String, String)>) -> (r: String)
    ensures
        r@ == spec_query_patch(table@, id@, pairs.deep_view()),
{
    proof {
        reveal_strlit("update ");
        reveal_strlit(" set ");
        reveal_strlit("='");
        reveal_strlit("'");
        reveal_strlit(" where id='");
    }
    let ghost pairs_v = pairs.deep_view();
    let mut q = String::from_str("update ");
    q.append(table.as_str());
    let mut i: usize = 0;
    while i < pairs.len()
        invariant
            0 <= i <= pairs.len(),
            pairs_v == pairs.deep_view(),
            q@ == "update "@ + table@ + patch_clauses(pairs_v.take(i as int)),
        decreases pairs.len() - i,
    {
        proof {
            reveal_strlit(" set ");
            reveal_strlit("='");
            reveal_strlit("'");
        }
        q.append(" set ");
        q.append(pairs[i].0.as_str());
        q.append("='");
        q.append(pairs[i].1.as_str());
        q.append("'");
        proof {
            assert(pairs_v.take(i + 1).drop_last() =~= pairs_v.take(i as int));
            assert(pairs_v.take(i + 1).last() == pairs_v[i as int]);
            assert(q@ =~= "update "@ + table@ + patch_clauses(pairs_v.take(i + 1)));
        }
        i = i + 1;
    }
    proof {
        assert(pairs_v.take(pairs.len() as int) =~= pairs_v);
    }
    q.append(" where id='");
    q.append(id.as_str());
    q.append("'");
    proof {
        assert(q@ =~= spec_query_patch(table@, id@, pairs_v));
    }
    q
}

/// The delete statement for one row of `table`.
pub fn query_delete(table: String) -> (r: String)
    ensures
        r@ == spec_query_delete(table@),
{
    let mut q = String::from_str("delete from ");
    q.append(table.as_str());
    q.append(" where id = ?");
    proof {
        assert(q@ =~= spec_query_delete(table@));
    }
    q
}

} // verus!
