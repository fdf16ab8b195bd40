use vstd::prelude::*;

verus! {

/// The identifier for a particular event: a 128-bit universally-unique value.
///
/// Identifiers are assigned by the publisher (the caller), never generated by
/// a store, and must not be reused within one store's lifetime.  The value is
/// the big-endian interpretation of the sixteen identifier bytes, so that the
/// canonical hyphenated text form and the byte form both round-trip through it.
#[derive(Clone, Copy, PartialEq, Eq, Structural, Debug)]
pub struct EventId(pub u128);

impl EventId {
    /// Build an identifier from its 128-bit value.
    pub fn from_u128(v: u128) -> (r: EventId)
        ensures
            r.0 == v,
    {
        EventId(v)
    }

    /// The 128-bit value of this identifier.
    pub fn as_u128(&self) -> (r: u128)
        ensures
            r == self.0,
    {
        self.0
    }
}

/// The error taxonomy of the event log.
///
/// Every failure carries a human-readable context string naming the operation
/// that failed; where an underlying cause exists it is carried alongside.
#[derive(Debug)]
pub enum Error {
    /// A file could not be opened, read or written.  Holds the rendered
    /// underlying cause and the context.
    IoError(String, String),
    /// A record's identifier field was not a valid hyphenated identifier.
    /// Holds the offending text (as bytes) and the context.
    UuidError(Vec<u8>, String),
    /// A payload could not be serialized or deserialized.  Holds the rendered
    /// underlying cause and the context.
    JsonSerialiseError(String, String),
    /// A record was missing its tab delimiter.  Holds the context.
    MissingTabError(String),
    /// The database engine reported a failure.  Holds the engine's error and
    /// the context.
    SqliteError(rusqlite::Error, String),
}

/// An event that exists on a particular event stream: the pairing of an
/// identifier with its payload.  Produced only by read operations; the
/// persisted form is always identifier plus serialized payload.
#[derive(Debug, Clone, PartialEq)]
pub struct KnownEvent<Event> {
    pub uuid: EventId,
    pub payload: Event,
}

impl Error {
    /// The human-readable description of this error: its context string,
    /// then its underlying cause in parentheses where one exists.  The
    /// malformed-identifier cause is the offending text itself; the engine
    /// cause is the engine's own rendering.
    pub fn message(&self) -> (r: String)
        ensures
            self matches Error::IoError(cause, ctx) ==> r@ == ctx@ + ". ("@ + cause@ + ")"@,
            self matches Error::JsonSerialiseError(cause, ctx) ==> r@ == ctx@ + ". ("@ + cause@
                + ")"@,
            self matches Error::UuidError(text, ctx) ==> ((exists|t: Seq<char>|
                r@ == ctx@ + ". ("@ + t + ")"@) && ((forall|j: int|
                0 <= j < text@.len() ==> #[trigger] text@[j] < 128) ==> r@ == ctx@ + ". ("@
                + text@.map_values(|b: u8| b as char) + ")"@)),
            self matches Error::MissingTabError(ctx) ==> r@ == ctx@,
            self matches Error::SqliteError(_, ctx) ==> (exists|t: Seq<char>|
                r@ == ctx@ + ". ("@ + t + ")"@),
    {
        match self {
            Error::IoError(cause, ctx) => join_cause(ctx.as_str(), cause.as_str()),
            Error::JsonSerialiseError(cause, ctx) => join_cause(ctx.as_str(), cause.as_str()),
            Error::UuidError(text, ctx) => {
                let rendered = lossy_text(text);
                let r = join_cause(ctx.as_str(), rendered.as_str());
                proof {
                    assert(r@ == ctx@ + ". ("@ + rendered@ + ")"@);
                }
                r
            },
            Error::MissingTabError(ctx) => clone_string(ctx.as_str()),
            Error::SqliteError(cause, ctx) => {
                let rendered = crate::sqlite_event_store::sqlite_error_text(cause);
                let r = join_cause(ctx.as_str(), rendered.as_str());
                proof {
                    assert(r@ == ctx@ + ". ("@ + rendered@ + ")"@);
                }
                r
            },
        }
    }
}

/// Relies on `String::from_utf8_lossy`: bytes rendered as text, invalid
/// UTF-8 sequences replaced; ASCII bytes render as exactly their characters.
#[verifier::external_body]
fn lossy_text(b: &Vec<u8>) -> (r: String)
    ensures
        (forall|j: int| 0 <= j < b@.len() ==> #[trigger] b@[j] < 128) ==> r@ == b@.map_values(
            |c: u8| c as char,
        ),
{
    String::from_utf8_lossy(b).into_owned()
}

/// `{ctx}. ({cause})`, the message shape of an error with an underlying
/// cause.
fn join_cause(ctx: &str, cause: &str) -> (r: String)
    ensures
        r@ == ctx@ + ". ("@ + cause@ + ")"@,
{
    let mut s = String::from_str(ctx);
    s.append(". (");
    s.append(cause);
    s.append(")");
    s
}

fn clone_string(s: &str) -> (r: String)
    ensures
        r@ == s@,
{
    String::from_str(s)
}

} // verus!
