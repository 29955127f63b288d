//! Users, movies and the ratings that connect them.

use std::collections::HashMap;
use vstd::prelude::*;

verus! {

/// Someone who rates movies.
#[derive(Debug, PartialEq, Eq)]
pub struct User {
    pub id: u32,
    pub name: String,
}

/// A movie and what is known about it.
#[derive(Debug, PartialEq, Eq)]
pub struct Movie {
    pub id: u32,
    pub title: String,
    pub genres: Vec<String>,
    pub year: u32,
    pub director: String,
    pub actors: Vec<String>,
}

/// What one user thinks of one movie.
#[derive(Clone, Copy, Debug, PartialEq, Eq, Structural)]
pub struct Rating {
    pub user_id: u32,
    pub movie_id: u32,
    /// The rating in tenths of a star: `45` stands for four and a half stars.
    pub rating: u32,
}

/// The two ends of a rating.
#[derive(Clone, Copy, Debug, PartialEq, Eq, Structural)]
pub enum Party {
    User,
    Movie,
}

impl Party {
    /// The other end.
    pub open spec fn other_of(self) -> Party {
        match self {
            Party::User => Party::Movie,
            Party::Movie => Party::User,
        }
    }

    /// The other end.
    pub fn other(self) -> (party: Party)
        ensures
            party == self.other_of(),
    {
        match self {
            Party::User => Party::Movie,
            Party::Movie => Party::User,
        }
    }
}

impl Rating {
    /// The id that the rating carries for `party`.
    pub open spec fn id_of(self, party: Party) -> u32 {
        match party {
            Party::User => self.user_id,
            Party::Movie => self.movie_id,
        }
    }

    /// The id that the rating carries for `party`.
    pub fn id(&self, party: Party) -> (id: u32)
        ensures
            id == self.id_of(party),
    {
        match party {
            Party::User => self.user_id,
            Party::Movie => self.movie_id,
        }
    }
}

/// The ratings of `ratings` that carry `id` for `party`, in their order.
pub open spec fn ratings_with(ratings: Seq<Rating>, party: Party, id: u32) -> Seq<Rating> {
    ratings.filter(|r: Rating| r.id_of(party) == id)
}

/// The ratings of `ratings` that `user_id` gave, in their order.
pub open spec fn ratings_by_user(ratings: Seq<Rating>, user_id: u32) -> Seq<Rating> {
    ratings_with(ratings, Party::User, user_id)
}

/// The ratings of `ratings` that `movie_id` received, in their order.
pub open spec fn ratings_of_movie(ratings: Seq<Rating>, movie_id: u32) -> Seq<Rating> {
    ratings_with(ratings, Party::Movie, movie_id)
}

/// Users and movies by their ids, and all ratings in the order they came.
pub struct Dataset {
    pub users: HashMap<u32, User>,
    pub movies: HashMap<u32, Movie>,
    pub ratings: Vec<Rating>,
}

impl Dataset {
    /// A data set that holds nothing.
    pub fn new() -> (dataset: Self)
        ensures
            dataset.users@ == Map::<u32, User>::empty(),
            dataset.movies@ == Map::<u32, Movie>::empty(),
            dataset.ratings@ == Seq::<Rating>::empty(),
    {
        Dataset { users: HashMap::new(), movies: HashMap::new(), ratings: Vec::new() }
    }

    /// Files `user` under their id; a user filed there before is replaced.
    pub fn add_user(&mut self, user: User)
        ensures
            final(self).users@ == old(self).users@.insert(user.id, user),
            final(self).movies == old(self).movies,
            final(self).ratings == old(self).ratings,
    {
        broadcast use vstd::std_specs::hash::group_hash_axioms;

        self.users.insert(user.id, user);
    }

    /// Files `movie` under its id; a movie filed there before is replaced.
    pub fn add_movie(&mut self, movie: Movie)
        ensures
            final(self).movies@ == old(self).movies@.insert(movie.id, movie),
            final(self).users == old(self).users,
            final(self).ratings == old(self).ratings,
    {
        broadcast use vstd::std_specs::hash::group_hash_axioms;

        self.movies.insert(movie.id, movie);
    }

    /// Appends `rating` to the ratings.
    pub fn add_rating(&mut self, rating: Rating)
        ensures
            final(self).ratings@ == old(self).ratings@.push(rating),
            final(self).users == old(self).users,
            final(self).movies == old(self).movies,
    {
        self.ratings.push(rating);
    }

    /// The ratings that carry `id` for `party`, in the order they came.
    pub fn get_ratings_with(&self, party: Party, id: u32) -> (found: Vec<Rating>)
        ensures
            found@ == ratings_with(self.ratings@, party, id),
    {
        let mut found: Vec<Rating> = Vec::new();
        let ghost keep = |r: Rating| r.id_of(party) == id;
        let mut k: usize = 0;
        proof {
            reveal(Seq::filter);
            assert(self.ratings@.take(0).filter(keep) =~= found@);
        }
        while k < self.ratings.len()
            invariant
                0 <= k <= self.ratings@.len(),
                keep == |r: Rating| r.id_of(party) == id,
                found@ == self.ratings@.take(k as int).filter(keep),
            decreases self.ratings@.len() - k,
        {
            let rating = self.ratings[k];
            proof {
                crate::sequences::lemma_filter_push(self.ratings@.take(k as int), rating, keep);
                assert(self.ratings@.take(k as int).push(rating) =~= self.ratings@.take(k + 1));
            }
            if rating.id(party) == id {
                found.push(rating);
            }
            k += 1;
        }
        assert(self.ratings@.take(k as int) =~= self.ratings@);
        found
    }

    /// The ratings that `user_id` gave, in the order they came.
    pub fn get_user_ratings(&self, user_id: u32) -> (found: Vec<Rating>)
        ensures
            found@ == ratings_by_user(self.ratings@, user_id),
    {
        self.get_ratings_with(Party::User, user_id)
    }

    /// The ratings that `movie_id` received, in the order they came.
    pub fn get_movie_ratings(&self, movie_id: u32) -> (found: Vec<Rating>)
        ensures
            found@ == ratings_of_movie(self.ratings@, movie_id),
    {
        self.get_ratings_with(Party::Movie, movie_id)
    }
}

} // verus!
