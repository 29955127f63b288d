//! A small data set of users, movies and ratings to try recommenders on.

use crate::models::{Dataset, Movie, Rating, User};
use vstd::prelude::*;

verus! {

/// The name of the sample user with this id.
pub open spec fn sample_user_name(id: u32) -> Seq<char> {
    if id == 1 {
        "Alice"@
    } else if id == 2 {
        "Bob"@
    } else if id == 3 {
        "Charlie"@
    } else if id == 4 {
        "Diana"@
    } else if id == 5 {
        "Eve"@
    } else {
        Seq::empty()
    }
}

/// The title of the sample movie with this id.
pub open spec fn sample_movie_title(id: u32) -> Seq<char> {
    if id == 1 {
        "The Shawshank Redemption"@
    } else if id == 2 {
        "The Godfather"@
    } else if id == 3 {
        "The Dark Knight"@
    } else if id == 4 {
        "Pulp Fiction"@
    } else if id == 5 {
        "Forrest Gump"@
    } else if id == 6 {
        "Inception"@
    } else if id == 7 {
        "The Matrix"@
    } else if id == 8 {
        "Goodfellas"@
    } else if id == 9 {
        "Interstellar"@
    } else if id == 10 {
        "The Silence of the Lambs"@
    } else {
        Seq::empty()
    }
}

/// The genres of the sample movie with this id.
pub open spec fn sample_movie_genres(id: u32) -> Seq<Seq<char>> {
    if id == 1 {
        seq!["Drama"@]
    } else if id == 2 {
        seq!["Crime"@, "Drama"@]
    } else if id == 3 {
        seq!["Action"@, "Crime"@, "Drama"@]
    } else if id == 4 {
        seq!["Crime"@, "Drama"@]
    } else if id == 5 {
        seq!["Drama"@, "Romance"@]
    } else if id == 6 {
        seq!["Action"@, "Sci-Fi"@, "Thriller"@]
    } else if id == 7 {
        seq!["Action"@, "Sci-Fi"@]
    } else if id == 8 {
        seq!["Crime"@, "Drama"@]
    } else if id == 9 {
        seq!["Adventure"@, "Drama"@, "Sci-Fi"@]
    } else if id == 10 {
        seq!["Crime"@, "Drama"@, "Thriller"@]
    } else {
        Seq::empty()
    }
}

/// The year of the sample movie with this id.
pub open spec fn sample_movie_year(id: u32) -> u32 {
    if id == 1 {
        1994
    } else if id == 2 {
        1972
    } else if id == 3 {
        2008
    } else if id == 4 {
        1994
    } else if id == 5 {
        1994
    } else if id == 6 {
        2010
    } else if id == 7 {
        1999
    } else if id == 8 {
        1990
    } else if id == 9 {
        2014
    } else if id == 10 {
        1991
    } else {
        0
    }
}

/// The director of the sample movie with this id.
pub open spec fn sample_movie_director(id: u32) -> Seq<char> {
    if id == 1 {
        "Frank Darabont"@
    } else if id == 2 {
        "Francis Ford Coppola"@
    } else if id == 3 {
        "Christopher Nolan"@
    } else if id == 4 {
        "Quentin Tarantino"@
    } else if id == 5 {
        "Robert Zemeckis"@
    } else if id == 6 {
        "Christopher Nolan"@
    } else if id == 7 {
        "Lana Wachowski"@
    } else if id == 8 {
        "Martin Scorsese"@
    } else if id == 9 {
        "Christopher Nolan"@
    } else if id == 10 {
        "Jonathan Demme"@
    } else {
        Seq::empty()
    }
}

/// The leading actors of the sample movie with this id.
pub open spec fn sample_movie_actors(id: u32) -> Seq<Seq<char>> {
    if id == 1 {
        seq!["Tim Robbins"@, "Morgan Freeman"@]
    } else if id == 2 {
        seq!["Marlon Brando"@, "Al Pacino"@]
    } else if id == 3 {
        seq!["Christian Bale"@, "Heath Ledger"@]
    } else if id == 4 {
        seq!["John Travolta"@, "Samuel L. Jackson"@]
    } else if id == 5 {
        seq!["Tom Hanks"@, "Robin Wright"@]
    } else if id == 6 {
        seq!["Leonardo DiCaprio"@, "Joseph Gordon-Levitt"@]
    } else if id == 7 {
        seq!["Keanu Reeves"@, "Laurence Fishburne"@]
    } else if id == 8 {
        seq!["Robert De Niro"@, "Ray Liotta"@]
    } else if id == 9 {
        seq!["Matthew McConaughey"@, "Anne Hathaway"@]
    } else if id == 10 {
        seq!["Jodie Foster"@, "Anthony Hopkins"@]
    } else {
        Seq::empty()
    }
}

/// The sample ratings, user by user.
pub open spec fn sample_ratings() -> Seq<Rating> {
    seq![
        (Rating { user_id: 1, movie_id: 2, rating: 50 }),
        (Rating { user_id: 1, movie_id: 4, rating: 45 }),
        (Rating { user_id: 1, movie_id: 8, rating: 45 }),
        (Rating { user_id: 1, movie_id: 10, rating: 40 }),
        (Rating { user_id: 2, movie_id: 3, rating: 50 }),
        (Rating { user_id: 2, movie_id: 6, rating: 50 }),
        (Rating { user_id: 2, movie_id: 9, rating: 45 }),
        (Rating { user_id: 2, movie_id: 7, rating: 40 }),
        (Rating { user_id: 3, movie_id: 1, rating: 50 }),
        (Rating { user_id: 3, movie_id: 2, rating: 50 }),
        (Rating { user_id: 3, movie_id: 5, rating: 45 }),
        (Rating { user_id: 3, movie_id: 4, rating: 40 }),
        (Rating { user_id: 3, movie_id: 8, rating: 45 }),
        (Rating { user_id: 4, movie_id: 3, rating: 45 }),
        (Rating { user_id: 4, movie_id: 6, rating: 50 }),
        (Rating { user_id: 4, movie_id: 7, rating: 45 }),
        (Rating { user_id: 4, movie_id: 9, rating: 40 }),
        (Rating { user_id: 5, movie_id: 1, rating: 50 }),
        (Rating { user_id: 5, movie_id: 2, rating: 45 }),
        (Rating { user_id: 5, movie_id: 5, rating: 50 }),
        (Rating { user_id: 5, movie_id: 10, rating: 40 }),
    ]
}

/// Whether `dataset` holds the sample: five users, ten movies, and the
/// sample ratings.
pub open spec fn is_sample(dataset: Dataset) -> bool {
    &&& dataset.ratings@ == sample_ratings()
    &&& forall|id: u32| dataset.users@.contains_key(id) <==> 1 <= id <= 5
    &&& forall|id: u32|
        1 <= id <= 5 ==> (#[trigger] dataset.users@[id]).id == id && dataset.users@[id].name@
            == sample_user_name(id)
    &&& forall|id: u32| dataset.movies@.contains_key(id) <==> 1 <= id <= 10
    &&& forall|id: u32|
        1 <= id <= 10 ==> {
            &&& (#[trigger] dataset.movies@[id]).id == id
            &&& dataset.movies@[id].title@ == sample_movie_title(id)
            &&& dataset.movies@[id].genres.deep_view() == sample_movie_genres(id)
            &&& dataset.movies@[id].year == sample_movie_year(id)
            &&& dataset.movies@[id].director@ == sample_movie_director(id)
            &&& dataset.movies@[id].actors.deep_view() == sample_movie_actors(id)
        }
}

/// A list of two texts.
fn pair_of(first: &str, second: &str) -> (list: Vec<String>)
    ensures
        list.deep_view() == seq![first@, second@],
{
    let mut list: Vec<String> = Vec::new();
    list.push(first.to_owned());
    list.push(second.to_owned());
    assert(list.deep_view() =~= seq![first@, second@]);
    list
}

/// A list of three texts.
fn triple_of(first: &str, second: &str, third: &str) -> (list: Vec<String>)
    ensures
        list.deep_view() == seq![first@, second@, third@],
{
    let mut list: Vec<String> = Vec::new();
    list.push(first.to_owned());
    list.push(second.to_owned());
    list.push(third.to_owned());
    assert(list.deep_view() =~= seq![first@, second@, third@]);
    list
}

/// A list of one text.
fn single_of(only: &str) -> (list: Vec<String>)
    ensures
        list.deep_view() == seq![only@],
{
    let mut list: Vec<String> = Vec::new();
    list.push(only.to_owned());
    assert(list.deep_view() =~= seq![only@]);
    list
}

/// The sample data set.
pub fn create_sample_dataset() -> (dataset: Dataset)
    ensures
        is_sample(dataset),
{
    let mut dataset = Dataset::new();

    dataset.add_user(User { id: 1, name: "Alice".to_owned() });
    dataset.add_user(User { id: 2, name: "Bob".to_owned() });
    dataset.add_user(User { id: 3, name: "Charlie".to_owned() });
    dataset.add_user(User { id: 4, name: "Diana".to_owned() });
    dataset.add_user(User { id: 5, name: "Eve".to_owned() });

    dataset.add_movie(
        Movie {
            id: 1,
            title: "The Shawshank Redemption".to_owned(),
            genres: single_of("Drama"),
            year: 1994,
            director: "Frank Darabont".to_owned(),
            actors: pair_of("Tim Robbins", "Morgan Freeman"),
        },
    );
    dataset.add_movie(
        Movie {
            id: 2,
            title: "The Godfather".to_owned(),
            genres: pair_of("Crime", "Drama"),
            year: 1972,
            director: "Francis Ford Coppola".to_owned(),
            actors: pair_of("Marlon Brando", "Al Pacino"),
        },
    );
    dataset.add_movie(
        Movie {
            id: 3,
            title: "The Dark Knight".to_owned(),
            genres: triple_of("Action", "Crime", "Drama"),
            year: 2008,
            director: "Christopher Nolan".to_owned(),
            actors: pair_of("Christian Bale", "Heath Ledger"),
        },
    );
    dataset.add_movie(
        Movie {
            id: 4,
            title: "Pulp Fiction".to_owned(),
            genres: pair_of("Crime", "Drama"),
            year: 1994,
            director: "Quentin Tarantino".to_owned(),
            actors: pair_of("John Travolta", "Samuel L. Jackson"),
        },
    );
    dataset.add_movie(
        Movie {
            id: 5,
            title: "Forrest Gump".to_owned(),
            genres: pair_of("Drama", "Romance"),
            year: 1994,
            director: "Robert Zemeckis".to_owned(),
            actors: pair_of("Tom Hanks", "Robin Wright"),
        },
    );
    dataset.add_movie(
        Movie {
            id: 6,
            title: "Inception".to_owned(),
            genres: triple_of("Action", "Sci-Fi", "Thriller"),
            year: 2010,
            director: "Christopher Nolan".to_owned(),
            actors: pair_of("Leonardo DiCaprio", "Joseph Gordon-Levitt"),
        },
    );
    dataset.add_movie(
        Movie {
            id: 7,
            title: "The Matrix".to_owned(),
            genres: pair_of("Action", "Sci-Fi"),
            year: 1999,
            director: "Lana Wachowski".to_owned(),
            actors: pair_of("Keanu Reeves", "Laurence Fishburne"),
        },
    );
    dataset.add_movie(
        Movie {
            id: 8,
            title: "Goodfellas".to_owned(),
            genres: pair_of("Crime", "Drama"),
            year: 1990,
            director: "Martin Scorsese".to_owned(),
            actors: pair_of("Robert De Niro", "Ray Liotta"),
        },
    );
    dataset.add_movie(
        Movie {
            id: 9,
            title: "Interstellar".to_owned(),
            genres: triple_of("Adventure", "Drama", "Sci-Fi"),
            year: 2014,
            director: "Christopher Nolan".to_owned(),
            actors: pair_of("Matthew McConaughey", "Anne Hathaway"),
        },
    );
    dataset.add_movie(
        Movie {
            id: 10,
            title: "The Silence of the Lambs".to_owned(),
            genres: triple_of("Crime", "Drama", "Thriller"),
            year: 1991,
            director: "Jonathan Demme".to_owned(),
            actors: pair_of("Jodie Foster", "Anthony Hopkins"),
        },
    );

    dataset.add_rating(Rating { user_id: 1, movie_id: 2, rating: 50 });
    dataset.add_rating(Rating { user_id: 1, movie_id: 4, rating: 45 });
    dataset.add_rating(Rating { user_id: 1, movie_id: 8, rating: 45 });
    dataset.add_rating(Rating { user_id: 1, movie_id: 10, rating: 40 });
    dataset.add_rating(Rating { user_id: 2, movie_id: 3, rating: 50 });
    dataset.add_rating(Rating { user_id: 2, movie_id: 6, rating: 50 });
    dataset.add_rating(Rating { user_id: 2, movie_id: 9, rating: 45 });
    dataset.add_rating(Rating { user_id: 2, movie_id: 7, rating: 40 });
    dataset.add_rating(Rating { user_id: 3, movie_id: 1, rating: 50 });
    dataset.add_rating(Rating { user_id: 3, movie_id: 2, rating: 50 });
    dataset.add_rating(Rating { user_id: 3, movie_id: 5, rating: 45 });
    dataset.add_rating(Rating { user_id: 3, movie_id: 4, rating: 40 });
    dataset.add_rating(Rating { user_id: 3, movie_id: 8, rating: 45 });
    dataset.add_rating(Rating { user_id: 4, movie_id: 3, rating: 45 });
    dataset.add_rating(Rating { user_id: 4, movie_id: 6, rating: 50 });
    dataset.add_rating(Rating { user_id: 4, movie_id: 7, rating: 45 });
    dataset.add_rating(Rating { user_id: 4, movie_id: 9, rating: 40 });
    dataset.add_rating(Rating { user_id: 5, movie_id: 1, rating: 50 });
    dataset.add_rating(Rating { user_id: 5, movie_id: 2, rating: 45 });
    dataset.add_rating(Rating { user_id: 5, movie_id: 5, rating: 50 });
    dataset.add_rating(Rating { user_id: 5, movie_id: 10, rating: 40 });

    assert(dataset.ratings@ =~= sample_ratings());
    dataset
}

} // verus!
