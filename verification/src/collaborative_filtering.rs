//! Collaborative filtering: what a recommender reads out of the ratings.

use crate::models::{Dataset, Party, Rating};
use std::collections::HashMap;
use vstd::prelude::*;

verus! {

/// The ratings that carry `id` for `party`, each under the id that it
/// carries for the other end, a later rating replacing an earlier one under
/// the same id.
pub open spec fn rating_map(ratings: Seq<Rating>, party: Party, id: u32) -> Map<u32, u32>
    decreases ratings.len(),
{
    if ratings.len() == 0 {
        Map::empty()
    } else {
        let earlier = rating_map(ratings.drop_last(), party, id);
        if ratings.last().id_of(party) == id {
            earlier.insert(ratings.last().id_of(party.other_of()), ratings.last().rating)
        } else {
            earlier
        }
    }
}

/// What `user_id` thinks of each movie they rated: the rating by movie id,
/// a later rating of the same movie replacing an earlier one.
pub open spec fn user_rating_map(ratings: Seq<Rating>, user_id: u32) -> Map<u32, u32> {
    rating_map(ratings, Party::User, user_id)
}

/// What each user who rated `movie_id` thinks of it: the rating by user id,
/// a later rating by the same user replacing an earlier one.
pub open spec fn movie_rating_map(ratings: Seq<Rating>, movie_id: u32) -> Map<u32, u32> {
    rating_map(ratings, Party::Movie, movie_id)
}

/// A recommender that works from the ratings of a data set.
pub struct CollaborativeFilter<'a> {
    dataset: &'a Dataset,
}

impl<'a> CollaborativeFilter<'a> {
    /// The data set that the filter reads.
    pub closed spec fn dataset(self) -> Dataset {
        *self.dataset
    }

    /// A filter over `dataset`.
    pub fn new(dataset: &'a Dataset) -> (filter: Self)
        ensures
            filter.dataset() == *dataset,
    {
        CollaborativeFilter { dataset }
    }

    /// The data set that the filter reads.
    pub fn data(&self) -> (dataset: &'a Dataset)
        ensures
            *dataset == self.dataset(),
    {
        self.dataset
    }

    /// The ratings that carry `id` for `party`, by the id at the other end.
    pub fn get_rating_map(&self, party: Party, id: u32) -> (ratings: HashMap<u32, u32>)
        ensures
            ratings@ == rating_map(self.dataset().ratings@, party, id),
    {
        broadcast use vstd::std_specs::hash::group_hash_axioms;

        let mut ratings: HashMap<u32, u32> = HashMap::new();
        let all = &self.dataset.ratings;
        let mut k: usize = 0;
        assert(all@.take(0) =~= Seq::<Rating>::empty());
        while k < all.len()
            invariant
                0 <= k <= all@.len(),
                ratings@ == rating_map(all@.take(k as int), party, id),
            decreases all@.len() - k,
        {
            let rating = all[k];
            assert(all@.take(k + 1).drop_last() =~= all@.take(k as int));
            if rating.id(party) == id {
                ratings.insert(rating.id(party.other()), rating.rating);
            }
            k += 1;
        }
        assert(all@.take(k as int) =~= all@);
        ratings
    }

    /// The ratings of `user_id` by movie id.
    pub fn get_user_rating_map(&self, user_id: u32) -> (ratings: HashMap<u32, u32>)
        ensures
            ratings@ == user_rating_map(self.dataset().ratings@, user_id),
    {
        self.get_rating_map(Party::User, user_id)
    }

    /// The ratings of `movie_id` by user id.
    pub fn get_movie_rating_map(&self, movie_id: u32) -> (ratings: HashMap<u32, u32>)
        ensures
            ratings@ == movie_rating_map(self.dataset().ratings@, movie_id),
    {
        self.get_rating_map(Party::Movie, movie_id)
    }
}

} // verus!
