//! The leaderboard's order: by winnings, highest first, entries with equal
//! winnings in the order they were created.
use vstd::prelude::*;

use crate::state::{ProfileView, UserProfile};

verus! {

/// The entries, as plain values.
pub open spec fn profiles_view(s: Seq<UserProfile>) -> Seq<ProfileView> {
    s.map_values(|p: UserProfile| p@)
}

/// `s` with `e` placed after every entry whose winnings are at least `e`'s.
pub open spec fn insert_ranked(e: ProfileView, s: Seq<ProfileView>) -> Seq<ProfileView>
    decreases s.len(),
{
    if s.len() == 0 {
        seq![e]
    } else if s[0].winnings >= e.winnings {
        seq![s[0]] + insert_ranked(e, s.drop_first())
    } else {
        seq![e] + s
    }
}

/// The entries of `s` in leaderboard order.
pub open spec fn ranked(s: Seq<ProfileView>) -> Seq<ProfileView>
    decreases s.len(),
{
    if s.len() == 0 {
        Seq::empty()
    } else {
        insert_ranked(s.last(), ranked(s.drop_last()))
    }
}

/// The winnings never rise along `s`.
pub open spec fn non_increasing(s: Seq<ProfileView>) -> bool {
    forall|i: int, j: int| 0 <= i < j < s.len() ==> #[trigger] s[i].winnings >= #[trigger] s[j].winnings
}

/// Placing `e` is inserting it before the first entry with lower winnings.
proof fn lemma_insert_ranked_at(e: ProfileView, s: Seq<ProfileView>, p: int)
    requires
        0 <= p <= s.len(),
        forall|j: int| 0 <= j < p ==> #[trigger] s[j].winnings >= e.winnings,
        p < s.len() ==> s[p].winnings < e.winnings,
    ensures
        insert_ranked(e, s) == s.insert(p, e),
    decreases s.len(),
{
    if s.len() == 0 {
        assert(insert_ranked(e, s) =~= s.insert(p, e));
    } else if s[0].winnings >= e.winnings {
        assert(p > 0);
        let t = s.drop_first();
        assert forall|j: int| 0 <= j < p - 1 implies #[trigger] t[j].winnings >= e.winnings by {
            assert(s[j + 1].winnings >= e.winnings);
        }
        lemma_insert_ranked_at(e, t, p - 1);
        assert(insert_ranked(e, s) =~= s.insert(p, e));
    } else {
        assert(insert_ranked(e, s) =~= s.insert(p, e));
    }
}

/// Every winnings of the placed sequence is bounded by what bounds `s` and `e`.
proof fn lemma_insert_ranked_bound(e: ProfileView, s: Seq<ProfileView>, b: i32)
    requires
        forall|j: int| 0 <= j < s.len() ==> #[trigger] s[j].winnings <= b,
        e.winnings <= b,
    ensures
        forall|j: int|
            0 <= j < insert_ranked(e, s).len() ==> #[trigger] insert_ranked(e, s)[j].winnings <= b,
        insert_ranked(e, s).len() == s.len() + 1,
    decreases s.len(),
{
    if s.len() > 0 && s[0].winnings >= e.winnings {
        let t = s.drop_first();
        lemma_insert_ranked_bound(e, t, b);
        let r = insert_ranked(e, s);
        assert forall|j: int| 0 <= j < r.len() implies #[trigger] r[j].winnings <= b by {
            if j > 0 {
                assert(r[j] == insert_ranked(e, t)[j - 1]);
            }
        }
    }
}

/// Placing `e` inserts it at some position and changes nothing else.
proof fn lemma_insert_ranked_inserts(e: ProfileView, s: Seq<ProfileView>)
    ensures
        exists|p: int| 0 <= p <= s.len() && insert_ranked(e, s) == s.insert(p, e),
    decreases s.len(),
{
    if s.len() == 0 {
        assert(insert_ranked(e, s) =~= s.insert(0, e));
    } else if s[0].winnings >= e.winnings {
        let t = s.drop_first();
        lemma_insert_ranked_inserts(e, t);
        let q = choose|q: int| 0 <= q <= t.len() && insert_ranked(e, t) == t.insert(q, e);
        assert(insert_ranked(e, s) =~= s.insert(q + 1, e));
    } else {
        assert(insert_ranked(e, s) =~= s.insert(0, e));
    }
}

/// The leaderboard order holds exactly the entries it orders.
proof fn lemma_ranked_same_entries(s: Seq<ProfileView>)
    ensures
        ranked(s).to_multiset() == s.to_multiset(),
    decreases s.len(),
{
    broadcast use vstd::seq_lib::to_multiset_insert;

    if s.len() == 0 {
        assert(ranked(s) =~= s);
    } else {
        let init = s.drop_last();
        lemma_ranked_same_entries(init);
        lemma_insert_ranked_inserts(s.last(), ranked(init));
        let p = choose|p: int|
            0 <= p <= ranked(init).len() && insert_ranked(s.last(), ranked(init)) == ranked(init).insert(
                p,
                s.last(),
            );
        assert(ranked(init).insert(p, s.last()).to_multiset() == ranked(init).to_multiset().insert(
            s.last(),
        ));
        init.to_multiset_ensures();
        assert(init.push(s.last()) =~= s);
    }
}

/// Placing an entry into an ordered sequence keeps it ordered.
proof fn lemma_insert_ranked_sorted(e: ProfileView, s: Seq<ProfileView>)
    requires
        non_increasing(s),
    ensures
        non_increasing(insert_ranked(e, s)),
        insert_ranked(e, s).len() == s.len() + 1,
    decreases s.len(),
{
    if s.len() == 0 {
    } else if s[0].winnings >= e.winnings {
        let t = s.drop_first();
        lemma_insert_ranked_sorted(e, t);
        lemma_insert_ranked_bound(e, t, s[0].winnings);
        let r = insert_ranked(e, s);
        assert forall|i: int, j: int| 0 <= i < j < r.len() implies #[trigger] r[i].winnings
            >= #[trigger] r[j].winnings by {
            assert(r[j] == insert_ranked(e, t)[j - 1]);
            if i > 0 {
                assert(r[i] == insert_ranked(e, t)[i - 1]);
            }
        }
    } else {
        let r = insert_ranked(e, s);
        assert forall|i: int, j: int| 0 <= i < j < r.len() implies #[trigger] r[i].winnings
            >= #[trigger] r[j].winnings by {
            assert(r[j] == s[j - 1]);
            if i > 0 {
                assert(r[i] == s[i - 1]);
            } else {
                assert(s[0].winnings >= s[j - 1].winnings);
            }
        }
    }
}

/// The leaderboard order is ordered by winnings, highest first, and holds
/// exactly the entries it orders.
pub proof fn lemma_ranked_sorted(s: Seq<ProfileView>)
    ensures
        non_increasing(ranked(s)),
        ranked(s).len() == s.len(),
        ranked(s).to_multiset() == s.to_multiset(),
    decreases s.len(),
{
    lemma_ranked_same_entries(s);
    if s.len() > 0 {
        lemma_ranked_sorted(s.drop_last());
        lemma_insert_ranked_sorted(s.last(), ranked(s.drop_last()));
    }
}

/// The entries in leaderboard order.
pub fn rank_profiles(ps: &Vec<UserProfile>) -> (r: Vec<UserProfile>)
    ensures
        profiles_view(r@) == ranked(profiles_view(ps@)),
{
    let ghost all = profiles_view(ps@);
    let mut out: Vec<UserProfile> = Vec::new();
    let mut i: usize = 0;
    proof {
        assert(all.take(0) =~= Seq::<ProfileView>::empty());
        assert(profiles_view(out@) =~= Seq::<ProfileView>::empty());
    }
    while i < ps.len()
        invariant
            all == profiles_view(ps@),
            i <= ps@.len(),
            profiles_view(out@) == ranked(all.take(i as int)),
            out@.len() == i,
        decreases ps@.len() - i,
    {
        let e = ps[i].copy();
        let ghost cur = profiles_view(out@);
        let mut p: usize = 0;
        while p < out.len() && out[p].winnings >= e.winnings
            invariant
                p <= out@.len(),
                cur == profiles_view(out@),
                forall|j: int| 0 <= j < p ==> #[trigger] cur[j].winnings >= e@.winnings,
            decreases out@.len() - p,
        {
            p = p + 1;
        }
        let ghost ev = e@;
        out.insert(p, e);
        proof {
            lemma_insert_ranked_at(ev, cur, p as int);
            assert(profiles_view(out@) =~= cur.insert(p as int, ev));
            assert(all.take(i + 1).drop_last() =~= all.take(i as int));
            assert(all.take(i + 1).last() == ev);
        }
        i = i + 1;
    }
    proof {
        assert(all.take(ps@.len() as int) =~= all);
    }
    out
}

} // verus!
