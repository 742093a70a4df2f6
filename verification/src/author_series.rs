use vstd::prelude::*;

verus! {

use crate::author::Author;
use crate::series::Series;

/// An author together with one of their series.
pub struct AuthorSeries {
    author: Author,
    series: Series,
}

impl AuthorSeries {
    /// Pair an author with one of their series.
    pub fn new(author: Author, series: Series) -> (r: AuthorSeries)
        ensures
            r.author_part() == author,
            r.series_part() == series,
    {
        AuthorSeries { author, series }
    }

    /// The author of the pair.
    pub closed spec fn author_part(&self) -> Author {
        self.author
    }

    /// The series of the pair.
    pub closed spec fn series_part(&self) -> Series {
        self.series
    }
}

} // verus!
