//! The failures of decoding, encoding and sample lookup.

use crate::codec::{decimal, lossy_text, put_bytes, put_decimal, put_u32, text_lossy, u32_be};
use crate::mp4box::BoxType;
use vstd::prelude::*;
use vstd::string::StringSliceAdditionalSpecFns;

verus! {

/// Why an operation failed.
#[derive(Debug)]
pub enum Error {
    /// The byte source ended before the bytes that were asked for.
    IoError,
    /// The bytes break a structural rule; the text says which.
    InvalidData(&'static str),
    /// A required box is absent.
    BoxNotFound(BoxType),
    /// One of two alternative boxes is required and neither is present.
    Box2NotFound(BoxType, BoxType),
    /// No track has this id.
    TrakNotFound(u32),
    /// The track with this id lacks a required box.
    BoxInTrakNotFound(u32, BoxType),
    /// The fragments of the track with this id lack a required box.
    BoxInTrafNotFound(u32, BoxType),
    /// The sample table of the track with this id lacks a required box.
    BoxInStblNotFound(u32, BoxType),
    /// A sample table of the track has no entry for this sample.
    EntryInStblNotFound(u32, BoxType, u32),
    /// A fragment run of the track has no entry for this sample.
    EntryInTrunNotFound(u32, BoxType, u32),
    /// The full box carries a version that its type does not define.
    UnsupportedBoxVersion(BoxType, u8),
}

/// An [`Error`] without the wording of its message.
#[derive(Debug, Clone, Copy, PartialEq, Eq)]
pub enum ErrorKind {
    IoError,
    InvalidData,
    BoxNotFound(BoxType),
    Box2NotFound(BoxType, BoxType),
    TrakNotFound(u32),
    BoxInTrakNotFound(u32, BoxType),
    BoxInTrafNotFound(u32, BoxType),
    BoxInStblNotFound(u32, BoxType),
    EntryInStblNotFound(u32, BoxType, u32),
    EntryInTrunNotFound(u32, BoxType, u32),
    UnsupportedBoxVersion(BoxType, u8),
}

impl Error {
    /// The kind of this error.
    pub open spec fn spec_kind(&self) -> ErrorKind {
        match *self {
            Error::IoError => ErrorKind::IoError,
            Error::InvalidData(_) => ErrorKind::InvalidData,
            Error::BoxNotFound(t) => ErrorKind::BoxNotFound(t),
            Error::Box2NotFound(a, b) => ErrorKind::Box2NotFound(a, b),
            Error::TrakNotFound(id) => ErrorKind::TrakNotFound(id),
            Error::BoxInTrakNotFound(id, t) => ErrorKind::BoxInTrakNotFound(id, t),
            Error::BoxInTrafNotFound(id, t) => ErrorKind::BoxInTrafNotFound(id, t),
            Error::BoxInStblNotFound(id, t) => ErrorKind::BoxInStblNotFound(id, t),
            Error::EntryInStblNotFound(id, t, e) => ErrorKind::EntryInStblNotFound(id, t, e),
            Error::EntryInTrunNotFound(id, t, e) => ErrorKind::EntryInTrunNotFound(id, t, e),
            Error::UnsupportedBoxVersion(t, v) => ErrorKind::UnsupportedBoxVersion(t, v),
        }
    }

    /// The kind of this error.
    #[verifier::when_used_as_spec(spec_kind)]
    pub fn kind(&self) -> (r: ErrorKind)
        ensures
            r == self.spec_kind(),
    {
        match *self {
            Error::IoError => ErrorKind::IoError,
            Error::InvalidData(_) => ErrorKind::InvalidData,
            Error::BoxNotFound(t) => ErrorKind::BoxNotFound(t),
            Error::Box2NotFound(a, b) => ErrorKind::Box2NotFound(a, b),
            Error::TrakNotFound(id) => ErrorKind::TrakNotFound(id),
            Error::BoxInTrakNotFound(id, t) => ErrorKind::BoxInTrakNotFound(id, t),
            Error::BoxInTrafNotFound(id, t) => ErrorKind::BoxInTrafNotFound(id, t),
            Error::BoxInStblNotFound(id, t) => ErrorKind::BoxInStblNotFound(id, t),
            Error::EntryInStblNotFound(id, t, e) => ErrorKind::EntryInStblNotFound(id, t, e),
            Error::EntryInTrunNotFound(id, t, e) => ErrorKind::EntryInTrunNotFound(id, t, e),
            Error::UnsupportedBoxVersion(t, v) => ErrorKind::UnsupportedBoxVersion(t, v),
        }
    }
}

/// Appends the bytes of `text`.
fn put_text(out: &mut Vec<u8>, text: &str)
    ensures
        final(out)@ == old(out)@ + text.spec_bytes(),
{
    put_bytes(out, text.as_bytes());
}

/// Appends the four bytes of the code of `t`.
fn put_type(out: &mut Vec<u8>, t: BoxType)
    ensures
        final(out)@ == old(out)@ + u32_be(t.spec_to_u32()),
{
    put_u32(out, t.to_u32());
}

impl Error {
    /// The bytes of the message that describes this error: the place of
    /// what is missing, by track number, box type and entry number.
    pub open spec fn spec_message_bytes(&self) -> Seq<u8> {
        match *self {
            Error::IoError => "unexpected end of the byte source".spec_bytes(),
            Error::InvalidData(msg) => msg.spec_bytes(),
            Error::BoxNotFound(t) => u32_be(t.spec_to_u32()) + " not found".spec_bytes(),
            Error::Box2NotFound(a, b) => u32_be(a.spec_to_u32()) + " and ".spec_bytes() + u32_be(
                b.spec_to_u32(),
            ) + " not found".spec_bytes(),
            Error::TrakNotFound(id) => "trak[".spec_bytes() + decimal(id as nat)
                + "] not found".spec_bytes(),
            Error::BoxInTrakNotFound(id, t) => "trak[".spec_bytes() + decimal(id as nat)
                + "].".spec_bytes() + u32_be(t.spec_to_u32()) + " not found".spec_bytes(),
            Error::BoxInTrafNotFound(id, t) => "traf[".spec_bytes() + decimal(id as nat)
                + "].".spec_bytes() + u32_be(t.spec_to_u32()) + " not found".spec_bytes(),
            Error::BoxInStblNotFound(id, t) => "trak[".spec_bytes() + decimal(id as nat)
                + "].stbl.".spec_bytes() + u32_be(t.spec_to_u32()) + " not found".spec_bytes(),
            Error::EntryInStblNotFound(id, t, e) => "trak[".spec_bytes() + decimal(id as nat)
                + "].stbl.".spec_bytes() + u32_be(t.spec_to_u32()) + ".entry[".spec_bytes()
                + decimal(e as nat) + "] not found".spec_bytes(),
            Error::EntryInTrunNotFound(id, t, e) => "traf[".spec_bytes() + decimal(id as nat)
                + "].trun.".spec_bytes() + u32_be(t.spec_to_u32()) + ".entry[".spec_bytes()
                + decimal(e as nat) + "] not found".spec_bytes(),
            Error::UnsupportedBoxVersion(t, v) => u32_be(t.spec_to_u32())
                + " version ".spec_bytes() + decimal(v as nat) + " is not supported".spec_bytes(),
        }
    }

    /// The bytes of the message that describes this error.
    pub fn message_bytes(&self) -> (r: Vec<u8>)
        ensures
            r@ == self.spec_message_bytes(),
    {
        let mut out: Vec<u8> = Vec::new();
        match *self {
            Error::IoError => {
                put_text(&mut out, "unexpected end of the byte source");
            },
            Error::InvalidData(msg) => {
                put_text(&mut out, msg);
            },
            Error::BoxNotFound(t) => {
                put_type(&mut out, t);
                put_text(&mut out, " not found");
            },
            Error::Box2NotFound(a, b) => {
                put_type(&mut out, a);
                put_text(&mut out, " and ");
                put_type(&mut out, b);
                put_text(&mut out, " not found");
            },
            Error::TrakNotFound(id) => {
                put_text(&mut out, "trak[");
                put_decimal(&mut out, id);
                put_text(&mut out, "] not found");
            },
            Error::BoxInTrakNotFound(id, t) => {
                put_text(&mut out, "trak[");
                put_decimal(&mut out, id);
                put_text(&mut out, "].");
                put_type(&mut out, t);
                put_text(&mut out, " not found");
            },
            Error::BoxInTrafNotFound(id, t) => {
                put_text(&mut out, "traf[");
                put_decimal(&mut out, id);
                put_text(&mut out, "].");
                put_type(&mut out, t);
                put_text(&mut out, " not found");
            },
            Error::BoxInStblNotFound(id, t) => {
                put_text(&mut out, "trak[");
                put_decimal(&mut out, id);
                put_text(&mut out, "].stbl.");
                put_type(&mut out, t);
                put_text(&mut out, " not found");
            },
            Error::EntryInStblNotFound(id, t, e) => {
                put_text(&mut out, "trak[");
                put_decimal(&mut out, id);
                put_text(&mut out, "].stbl.");
                put_type(&mut out, t);
                put_text(&mut out, ".entry[");
                put_decimal(&mut out, e);
                put_text(&mut out, "] not found");
            },
            Error::EntryInTrunNotFound(id, t, e) => {
                put_text(&mut out, "traf[");
                put_decimal(&mut out, id);
                put_text(&mut out, "].trun.");
                put_type(&mut out, t);
                put_text(&mut out, ".entry[");
                put_decimal(&mut out, e);
                put_text(&mut out, "] not found");
            },
            Error::UnsupportedBoxVersion(t, v) => {
                put_type(&mut out, t);
                put_text(&mut out, " version ");
                put_decimal(&mut out, v as u32);
                put_text(&mut out, " is not supported");
            },
        }
        assert(out@ =~= self.spec_message_bytes());
        out
    }

    /// The message that describes this error, as text.
    pub fn message(&self) -> (r: String)
        ensures
            r@ == lossy_text(self.spec_message_bytes()),
    {
        let bytes = self.message_bytes();
        text_lossy(bytes.as_slice())
    }
}

} // verus!
