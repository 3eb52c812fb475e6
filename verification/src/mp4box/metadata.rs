//! What a metadata item list says of the movie.

use crate::codec::{lossy_text, parse_decimal, spec_parse_decimal, text_lossy};
use crate::mp4box::ilst::IlstBox;
use vstd::prelude::*;

verus! {

impl IlstBox {
    /// The title of the movie, where the list gives one.
    pub fn title(&self) -> (r: Option<String>)
        ensures
            r is Some <==> self.title is Some,
            r is Some ==> r.unwrap()@ == lossy_text(self.title.unwrap().data.data@),
    {
        match &self.title {
            Some(item) => Some(text_lossy(item.data.data.as_slice())),
            None => None,
        }
    }

    /// The year of release: the number that the release date item writes
    /// in decimal, where the list has the item and it writes one.
    pub fn year(&self) -> (r: Option<u32>)
        ensures
            r == (match self.year {
                Some(item) => spec_parse_decimal(item.data.data@),
                None => None,
            }),
    {
        match &self.year {
            Some(item) => parse_decimal(item.data.data.as_slice()),
            None => None,
        }
    }

    /// The bytes of the cover picture, where the list gives one.
    pub fn poster(&self) -> (r: Option<&[u8]>)
        ensures
            r is Some <==> self.poster is Some,
            r is Some ==> r.unwrap()@ == self.poster.unwrap().data.data@,
    {
        match &self.poster {
            Some(item) => Some(item.data.data.as_slice()),
            None => None,
        }
    }

    /// The description of the movie, where the list gives one.
    pub fn summary(&self) -> (r: Option<String>)
        ensures
            r is Some <==> self.summary is Some,
            r is Some ==> r.unwrap()@ == lossy_text(self.summary.unwrap().data.data@),
    {
        match &self.summary {
            Some(item) => Some(text_lossy(item.data.data.as_slice())),
            None => None,
        }
    }
}

} // verus!
