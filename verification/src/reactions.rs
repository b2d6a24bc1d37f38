//! Tallying of an article's reactions into the eight display categories.
use vstd::prelude::*;

verus! {

/// One reaction left on an article.
#[derive(Clone, Copy, PartialEq, Eq, Structural)]
pub enum ReactionContent {
    Heart,
    PlusOne,
    Laugh,
    Confused,
    Hooray,
    MinusOne,
    Rocket,
    Eyes,
}

/// Per-category reaction tallies of one article.
#[derive(Debug, Default)]
pub struct ReactionCounts {
    pub heart: usize,
    pub plus_one: usize,
    pub laugh: usize,
    pub confused: usize,
    pub hooray: usize,
    pub minus_one: usize,
    pub rocket: usize,
    pub eyes: usize,
}

/// How many reactions in `rs` are of kind `c`.
pub open spec fn count_matching(rs: Seq<ReactionContent>, c: ReactionContent) -> int
    decreases rs.len(),
{
    if rs.len() == 0 {
        0
    } else {
        (if rs[0] == c {
            1int
        } else {
            0int
        }) + count_matching(rs.drop_first(), c)
    }
}

proof fn lemma_count_matching_bounds(rs: Seq<ReactionContent>, c: ReactionContent)
    ensures
        0 <= count_matching(rs, c) <= rs.len(),
    decreases rs.len(),
{
    if rs.len() > 0 {
        lemma_count_matching_bounds(rs.drop_first(), c);
    }
}

/// Whether `counts` tallies `rs` exactly, category by category.
pub open spec fn counts_tally(counts: ReactionCounts, rs: Seq<ReactionContent>) -> bool {
    &&& counts.heart == count_matching(rs, ReactionContent::Heart)
    &&& counts.plus_one == count_matching(rs, ReactionContent::PlusOne)
    &&& counts.laugh == count_matching(rs, ReactionContent::Laugh)
    &&& counts.confused == count_matching(rs, ReactionContent::Confused)
    &&& counts.hooray == count_matching(rs, ReactionContent::Hooray)
    &&& counts.minus_one == count_matching(rs, ReactionContent::MinusOne)
    &&& counts.rocket == count_matching(rs, ReactionContent::Rocket)
    &&& counts.eyes == count_matching(rs, ReactionContent::Eyes)
}

/// Tallies the reactions of one article into the eight categories.
pub fn collect_reactions(reactions: &Vec<ReactionContent>) -> (r: ReactionCounts)
    ensures
        counts_tally(r, reactions@),
{
    let mut out = ReactionCounts {
        heart: 0,
        plus_one: 0,
        laugh: 0,
        confused: 0,
        hooray: 0,
        minus_one: 0,
        rocket: 0,
        eyes: 0,
    };
    let mut i: usize = 0;
    proof {
        assert(reactions@.skip(0) =~= reactions@);
    }
    while i < reactions.len()
        invariant
            0 <= i <= reactions.len(),
            out.heart + count_matching(reactions@.skip(i as int), ReactionContent::Heart)
                == count_matching(reactions@, ReactionContent::Heart),
            out.plus_one + count_matching(reactions@.skip(i as int), ReactionContent::PlusOne)
                == count_matching(reactions@, ReactionContent::PlusOne),
            out.laugh + count_matching(reactions@.skip(i as int), ReactionContent::Laugh)
                == count_matching(reactions@, ReactionContent::Laugh),
            out.confused + count_matching(reactions@.skip(i as int), ReactionContent::Confused)
                == count_matching(reactions@, ReactionContent::Confused),
            out.hooray + count_matching(reactions@.skip(i as int), ReactionContent::Hooray)
                == count_matching(reactions@, ReactionContent::Hooray),
            out.minus_one + count_matching(reactions@.skip(i as int), ReactionContent::MinusOne)
                == count_matching(reactions@, ReactionContent::MinusOne),
            out.rocket + count_matching(reactions@.skip(i as int), ReactionContent::Rocket)
                == count_matching(reactions@, ReactionContent::Rocket),
            out.eyes + count_matching(reactions@.skip(i as int), ReactionContent::Eyes)
                == count_matching(reactions@, ReactionContent::Eyes),
        decreases reactions.len() - i,
    {
        let ghost rest = reactions@.skip(i as int);
        proof {
            assert(rest[0] == reactions@[i as int]);
            assert(rest.drop_first() =~= reactions@.skip(i + 1));
            lemma_count_matching_bounds(rest.drop_first(), reactions@[i as int]);
            lemma_count_matching_bounds(reactions@, reactions@[i as int]);
        }
        match reactions[i] {
            ReactionContent::Heart => out.heart = out.heart + 1,
            ReactionContent::PlusOne => out.plus_one = out.plus_one + 1,
            ReactionContent::Laugh => out.laugh = out.laugh + 1,
            ReactionContent::Confused => out.confused = out.confused + 1,
            ReactionContent::Hooray => out.hooray = out.hooray + 1,
            ReactionContent::MinusOne => out.minus_one = out.minus_one + 1,
            ReactionContent::Rocket => out.rocket = out.rocket + 1,
            ReactionContent::Eyes => out.eyes = out.eyes + 1,
        }
        i = i + 1;
    }
    proof {
        assert(reactions@.skip(reactions@.len() as int) =~= Seq::<ReactionContent>::empty());
    }
    out
}

} // verus!
