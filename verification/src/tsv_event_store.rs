use crate::event_id::{id_text, id_text_valid, text_value};
use crate::types::{Error, EventId, KnownEvent};
use vstd::prelude::*;

verus! {

// ---------------------------------------------------------------------------
// The flat-file record format: one record per line, the identifier text, one
// tab, then the serialized payload.  A trailing newline is optional in the
// file but always written; blank lines are tolerated and skipped on read.
//
// Everything here works on file content handed in as bytes; the one byte of
// file state that publishing inspects (the last byte) is handed in as well.
// The caller performs the reads and the appends.
// ---------------------------------------------------------------------------
/// How a single record line can fail to parse.
pub enum LineError {
    /// The line holds no tab delimiter.
    MissingTab,
    /// The text before the first tab is not a well-formed identifier.
    InvalidId,
}

/// What one record line means: the identifier's value and the payload bytes,
/// or the way the line is malformed.
pub type LineOutcome = Result<(int, Seq<u8>), LineError>;

/// The raw lines of `c`: the pieces between newline bytes, the piece after the
/// last newline included (it is empty when the content ends with a newline).
pub open spec fn split_raw(c: Seq<u8>) -> Seq<Seq<u8>>
    decreases c.len(),
{
    if c.len() == 0 {
        seq![Seq::<u8>::empty()]
    } else {
        let rest = split_raw(c.drop_last());
        if c.last() == 10 {
            rest.push(Seq::<u8>::empty())
        } else {
            rest.update(rest.len() - 1, rest.last().push(c.last()))
        }
    }
}

/// A line with a trailing carriage return dropped, as the line-based readers
/// of the standard library do.
pub open spec fn strip_cr(l: Seq<u8>) -> Seq<u8> {
    if l.len() > 0 && l.last() == 13 {
        l.drop_last()
    } else {
        l
    }
}

/// The lines of `c`: raw pieces with a final empty piece (from a trailing
/// newline) dropped and one trailing carriage return per line stripped.
pub open spec fn lines_of(c: Seq<u8>) -> Seq<Seq<u8>> {
    let raw = split_raw(c);
    let kept = if raw.last().len() == 0 {
        raw.drop_last()
    } else {
        raw
    };
    kept.map_values(|l: Seq<u8>| strip_cr(l))
}

/// ASCII whitespace, the bytes that make a line blank.
pub open spec fn is_space(b: u8) -> bool {
    b == 32 || (9 <= b <= 13)
}

/// A blank line: nothing but whitespace.
pub open spec fn is_blank(l: Seq<u8>) -> bool {
    forall|j: int| 0 <= j < l.len() ==> is_space(#[trigger] l[j])
}

/// The position of the first tab in `l`, or `l.len()` if there is none.
pub open spec fn tab_pos(l: Seq<u8>) -> int
    decreases l.len(),
{
    if l.len() == 0 {
        0
    } else if l[0] == 9 {
        0
    } else {
        1 + tab_pos(l.drop_first())
    }
}

/// What one record line means.  The line is split once at its first tab; the
/// left part must be a well-formed identifier text; the rest is the payload.
pub open spec fn line_outcome(l: Seq<u8>) -> LineOutcome {
    if tab_pos(l) >= l.len() {
        Err(LineError::MissingTab)
    } else if id_text_valid(l.take(tab_pos(l))) {
        Ok((text_value(l.take(tab_pos(l))), l.skip(tab_pos(l) + 1)))
    } else {
        Err(LineError::InvalidId)
    }
}

/// The outcomes of a sequence of lines, blank lines passed over.
pub open spec fn outcomes_of(ls: Seq<Seq<u8>>) -> Seq<LineOutcome>
    decreases ls.len(),
{
    if ls.len() == 0 {
        Seq::<LineOutcome>::empty()
    } else {
        let r = outcomes_of(ls.drop_last());
        if is_blank(ls.last()) {
            r
        } else {
            r.push(line_outcome(ls.last()))
        }
    }
}

/// Whether an outcome is a record carrying the identifier value `t`.
/// A malformed line never matches.
pub open spec fn outcome_is(o: LineOutcome, t: int) -> bool {
    o matches Ok(p) && p.0 == t
}

/// The suffix of `s` that starts at the first outcome carrying `t`, or the
/// empty sequence if no outcome carries it.
pub open spec fn skip_until(s: Seq<LineOutcome>, t: int) -> Seq<LineOutcome>
    decreases s.len(),
{
    if s.len() == 0 {
        Seq::<LineOutcome>::empty()
    } else {
        let r = skip_until(s.drop_last(), t);
        if r.len() > 0 {
            r.push(s.last())
        } else if outcome_is(s.last(), t) {
            seq![s.last()]
        } else {
            Seq::<LineOutcome>::empty()
        }
    }
}

/// What reading the store yields: every record line's outcome in file order,
/// or, when resuming from an identifier, the suffix that starts at that
/// identifier's record (inclusive) — empty if the identifier never appears.
pub open spec fn read_result(c: Seq<u8>, from: Option<int>) -> Seq<LineOutcome> {
    match from {
        None => outcomes_of(lines_of(c)),
        Some(t) => skip_until(outcomes_of(lines_of(c)), t),
    }
}

/// What asking for the latest event yields: the identifier of the last
/// non-blank line, `None` on a store with no records, or that line's error.
pub open spec fn latest_result(c: Seq<u8>) -> Result<Option<int>, LineError> {
    let o = outcomes_of(lines_of(c));
    if o.len() == 0 {
        Ok(None)
    } else {
        match o.last() {
            Ok(p) => Ok(Some(p.0)),
            Err(e) => Err(e),
        }
    }
}

/// The bytes of one persisted record: identifier text, tab, payload, newline.
pub open spec fn record_bytes(id: u128, payload: Seq<u8>) -> Seq<u8> {
    id_text(id) + seq![9u8] + payload + seq![10u8]
}

/// Whether appending to content `c` must first supply the newline a prior
/// writer omitted.
pub open spec fn needs_newline(c: Seq<u8>) -> bool {
    c.len() > 0 && c.last() != 10
}

/// The content of the store after publishing `(id, payload)` over content `c`:
/// `c` unchanged, then one healing newline exactly when `c` ends without one,
/// then the new record.
pub open spec fn store_append(c: Seq<u8>, id: u128, payload: Seq<u8>) -> Seq<u8> {
    if needs_newline(c) {
        c + seq![10u8] + record_bytes(id, payload)
    } else {
        c + record_bytes(id, payload)
    }
}

/// A payload that the record format can frame: serialized text never carries
/// raw line-break bytes.
pub open spec fn payload_wf(p: Seq<u8>) -> bool {
    forall|j: int| 0 <= j < p.len() ==> p[j] != 10 && #[trigger] p[j] != 13
}

/// How an executable read element realizes a line outcome: a record becomes an
/// envelope with that identifier and payload, a malformed line becomes the
/// matching error.
pub open spec fn outcome_matches(o: LineOutcome, r: Result<KnownEvent<Vec<u8>>, Error>) -> bool {
    match o {
        Ok(p) => r matches Ok(ev) && ev.uuid.0 as int == p.0 && ev.payload@ == p.1,
        Err(LineError::MissingTab) => r matches Err(Error::MissingTabError(_)),
        Err(LineError::InvalidId) => r matches Err(Error::UuidError(_, _)),
    }
}

/// The views of a vector of byte lines.
pub open spec fn line_views(v: Seq<Vec<u8>>) -> Seq<Seq<u8>> {
    Seq::new(v.len(), |j: int| v[j]@)
}

/// Elementwise realization of a whole outcome sequence.
pub open spec fn outcomes_match(o: Seq<LineOutcome>, r: Seq<Result<KnownEvent<Vec<u8>>, Error>>) -> bool {
    o.len() == r.len() && (forall|i: int| 0 <= i < o.len() ==> outcome_matches(o[i], #[trigger] r[i]))
}

// ---------------------------------------------------------------------------
// Facts about the spec model.
// ---------------------------------------------------------------------------
/// `split_raw` always yields at least one piece.
pub proof fn lemma_split_raw_nonempty(c: Seq<u8>)
    ensures
        split_raw(c).len() >= 1,
    decreases c.len(),
{
    if c.len() > 0 {
        lemma_split_raw_nonempty(c.drop_last());
    }
}

/// Where the first tab of a line sits: no tab before it, and a tab at it when
/// it lies within the line.
pub proof fn lemma_tab_pos(l: Seq<u8>)
    ensures
        0 <= tab_pos(l) <= l.len(),
        forall|j: int| 0 <= j < tab_pos(l) ==> l[j] != 9,
        tab_pos(l) < l.len() ==> l[tab_pos(l)] == 9,
    decreases l.len(),
{
    if l.len() > 0 && l[0] != 9 {
        lemma_tab_pos(l.drop_first());
        assert forall|j: int| 0 <= j < tab_pos(l) implies l[j] != 9 by {
            if j > 0 {
                assert(l.drop_first()[j - 1] == l[j]);
            }
        }
        if tab_pos(l) < l.len() {
            assert(l.drop_first()[tab_pos(l) - 1] == l[tab_pos(l)]);
        }
    }
}

// ---------------------------------------------------------------------------
// Executable building blocks.
// ---------------------------------------------------------------------------
/// Copy the bytes of `v` from `from` (inclusive) to `to` (exclusive).
fn subvec(v: &Vec<u8>, from: usize, to: usize) -> (r: Vec<u8>)
    requires
        from <= to <= v@.len(),
    ensures
        r@ == v@.subrange(from as int, to as int),
{
    let mut r: Vec<u8> = Vec::new();
    let mut i: usize = from;
    while i < to
        invariant
            from <= i <= to <= v@.len(),
            r@ =~= v@.subrange(from as int, i as int),
        decreases to - i,
    {
        r.push(v[i]);
        proof {
            assert(r@ =~= v@.subrange(from as int, i as int + 1));
        }
        i += 1;
    }
    r
}

/// Split content into its lines: pieces between newlines, a final empty piece
/// dropped, one trailing carriage return per line stripped.
pub fn split_lines(c: &Vec<u8>) -> (r: Vec<Vec<u8>>)
    ensures
        line_views(r@) == lines_of(c@),
{
    let mut out: Vec<Vec<u8>> = Vec::new();
    let mut cur: Vec<u8> = Vec::new();
    let mut i: usize = 0;
    while i < c.len()
        invariant
            i <= c@.len(),
            split_raw(c@.take(i as int)).len() == out@.len() + 1,
            cur@ == split_raw(c@.take(i as int)).last(),
            forall|j: int|
                0 <= j < out@.len() ==> #[trigger] out@[j]@ == strip_cr(
                    split_raw(c@.take(i as int))[j],
                ),
        decreases c@.len() - i,
    {
        let b = c[i];
        proof {
            assert(c@.take(i as int + 1).drop_last() =~= c@.take(i as int));
            assert(c@.take(i as int + 1).last() == c@[i as int]);
            lemma_split_raw_nonempty(c@.take(i as int));
        }
        if b == 10 {
            let ghost raw_line = cur@;
            if cur.len() > 0 && cur[cur.len() - 1] == 13 {
                let _ = cur.pop();
            }
            proof {
                assert(cur@ == strip_cr(raw_line));
            }
            out.push(cur);
            cur = Vec::new();
        } else {
            cur.push(b);
        }
        i += 1;
    }
    proof {
        assert(c@.take(c@.len() as int) =~= c@);
    }
    if cur.len() > 0 {
        let ghost raw_line = cur@;
        if cur[cur.len() - 1] == 13 {
            let _ = cur.pop();
        }
        proof {
            assert(cur@ == strip_cr(raw_line));
        }
        out.push(cur);
    }
    proof {
        let raw = split_raw(c@);
        let kept = if raw.last().len() == 0 {
            raw.drop_last()
        } else {
            raw
        };
        assert(line_views(out@) =~= kept.map_values(|l: Seq<u8>| strip_cr(l)));
    }
    out
}

/// Parse one record line: split it once at its first tab and parse the left
/// part as an identifier.  The errors are exactly those of `line_outcome`.
pub fn parse_line(l: &Vec<u8>) -> (r: Result<KnownEvent<Vec<u8>>, Error>)
    ensures
        outcome_matches(line_outcome(l@), r),
{
    proof {
        lemma_tab_pos(l@);
    }
    let mut t: usize = 0;
    while t < l.len() && l[t] != 9
        invariant
            0 <= t <= l@.len(),
            forall|j: int| 0 <= j < t ==> l@[j] != 9,
        decreases l@.len() - t,
    {
        t += 1;
    }
    proof {
        lemma_tab_pos(l@);
        assert(t as int == tab_pos(l@));
    }
    if t == l.len() {
        Err(Error::MissingTabError(String::from_str("record line has no tab delimiter")))
    } else {
        let id_part = subvec(l, 0, t);
        match EventId::from_text(&id_part) {
            Some(uuid) => {
                let payload = subvec(l, t + 1, l.len());
                Ok(KnownEvent { uuid, payload })
            },
            None => Err(
                Error::UuidError(
                    id_part,
                    String::from_str("record line does not start with a valid identifier"),
                ),
            ),
        }
    }
}

/// The bytes that publishing appends: the healing newline exactly when the
/// file's last byte is not a newline, then the record.
pub open spec fn append_tail(last_byte: Option<u8>, id: u128, payload: Seq<u8>) -> Seq<u8> {
    if last_byte matches Some(b) && b != 10 {
        seq![10u8] + record_bytes(id, payload)
    } else {
        record_bytes(id, payload)
    }
}

/// The last byte of a content, if any.
pub open spec fn last_byte_of(c: Seq<u8>) -> Option<u8> {
    if c.len() == 0 {
        None
    } else {
        Some(c.last())
    }
}

/// Appending what `publish_bytes` hands back yields exactly the content that
/// `store_append` describes.
pub proof fn lemma_append_tail(c: Seq<u8>, id: u128, payload: Seq<u8>)
    ensures
        c + append_tail(last_byte_of(c), id, payload) == store_append(c, id, payload),
{
    if needs_newline(c) {
        assert(c + (seq![10u8] + record_bytes(id, payload)) =~= c + seq![10u8] + record_bytes(
            id,
            payload,
        ));
    }
}

/// The identifier a read resumes from, as a spec value.
pub open spec fn from_spec(o: Option<EventId>) -> Option<int> {
    match o {
        None => None,
        Some(e) => Some(e.0 as int),
    }
}

/// What a read of lines `ls` resuming from `from` must yield.
pub open spec fn goal_of(ls: Seq<Seq<u8>>, from: Option<int>) -> Seq<LineOutcome> {
    match from {
        None => outcomes_of(ls),
        Some(t) => skip_until(outcomes_of(ls), t),
    }
}

/// How the executable latest-event result realizes the spec result.
pub open spec fn latest_matches(
    o: Result<Option<int>, LineError>,
    r: Result<Option<EventId>, Error>,
) -> bool {
    match o {
        Ok(Some(id)) => r matches Ok(Some(e)) && e.0 as int == id,
        Ok(None) => r matches Ok(x) && x is None,
        Err(LineError::MissingTab) => r matches Err(Error::MissingTabError(_)),
        Err(LineError::InvalidId) => r matches Err(Error::UuidError(_, _)),
    }
}

/// Whether a line is blank.
fn is_blank_line(l: &Vec<u8>) -> (r: bool)
    ensures
        r == is_blank(l@),
{
    let mut i: usize = 0;
    while i < l.len()
        invariant
            0 <= i <= l@.len(),
            forall|j: int| 0 <= j < i ==> is_space(#[trigger] l@[j]),
        decreases l@.len() - i,
    {
        let b = l[i];
        if !(b == 32 || (9 <= b && b <= 13)) {
            assert(!is_space(l@[i as int]));
            return false;
        }
        i += 1;
    }
    true
}

/// A flat-file event store: events live as newline-delimited, tab-separated
/// `identifier, payload` records in the single file at `file`.
///
/// The store itself is stateless beyond the path.  Its logic works on the
/// file's content as byte strings: the caller reads the file and hands the
/// bytes in, and appends the bytes that `publish_bytes` hands back.  This
/// backend enforces no identifier uniqueness — a documented weaker guarantee —
/// and resuming from an identifier that never appears yields an empty result,
/// where the relational backend answers with an error.  The two backends keep
/// these different answers deliberately, as policy, and each documents and
/// tests its own.
pub struct TSVEventStore {
    pub file: String,
}

impl TSVEventStore {
    /// A store over the flat file at `file`.  No eager work: the file is
    /// touched only when an operation runs.
    pub fn new(file: &str) -> (r: TSVEventStore)
        ensures
            r.file@ == file@,
    {
        TSVEventStore { file: String::from_str(file) }
    }

    /// The path of the backing file.
    pub fn path(&self) -> (r: &str)
        ensures
            r@ == self.file@,
    {
        self.file.as_str()
    }

    /// The bytes that publishing `(uuid, payload)` appends to the file, given
    /// the file's current last byte (`None` when the file does not exist or is
    /// empty): one healing newline exactly when the file ends without one,
    /// then the record, newline-terminated.  The file's own bytes are left
    /// untouched; `lemma_append_tail` states the resulting content.
    pub fn publish_bytes(&self, uuid: EventId, payload: &Vec<u8>, last_byte: Option<u8>) -> (r:
        Vec<u8>)
        ensures
            r@ == append_tail(last_byte, uuid.0, payload@),
    {
        let mut r: Vec<u8> = Vec::new();
        match last_byte {
            Some(b) => if b != 10 {
                r.push(10);
            },
            None => {},
        }
        let mut t = uuid.to_text();
        r.append(&mut t);
        r.push(9);
        let mut i: usize = 0;
        while i < payload.len()
            invariant
                0 <= i <= payload@.len(),
                r@ =~= (if last_byte matches Some(b) && b != 10 {
                    seq![10u8]
                } else {
                    Seq::<u8>::empty()
                }) + id_text(uuid.0) + seq![9u8] + payload@.take(i as int),
            decreases payload@.len() - i,
        {
            r.push(payload[i]);
            proof {
                assert(payload@.take(i as int + 1) =~= payload@.take(i as int).push(
                    payload@[i as int],
                ));
            }
            i += 1;
        }
        r.push(10);
        proof {
            assert(payload@.take(payload@.len() as int) =~= payload@);
            assert(r@ =~= append_tail(last_byte, uuid.0, payload@));
        }
        r
    }

    /// The identifier of the latest event in the given file content: the
    /// identifier of the last non-blank line, or `None` when no such line
    /// exists.  A last line without a tab or with a malformed identifier is an
    /// error, never a silent skip.
    pub fn get_latest_event(&self, content: &Vec<u8>) -> (r: Result<Option<EventId>, Error>)
        ensures
            latest_matches(latest_result(content@), r),
    {
        let lines = split_lines(content);
        let ghost lv = lines_of(content@);
        let mut last: Option<usize> = None;
        let mut i: usize = 0;
        while i < lines.len()
            invariant
                line_views(lines@) == lines_of(content@),
                0 <= i <= lines@.len(),
                lv == lines_of(content@),
                match last {
                    None => outcomes_of(lv.take(i as int)).len() == 0,
                    Some(j) => j < i && outcomes_of(lv.take(i as int)).len() > 0 && outcomes_of(
                        lv.take(i as int),
                    ).last() == line_outcome(lines@[j as int]@),
                },
            decreases lines@.len() - i,
        {
            proof {
                assert(lv.take(i as int + 1).drop_last() =~= lv.take(i as int));
                assert(lv.take(i as int + 1).last() == lines@[i as int]@);
            }
            if !is_blank_line(&lines[i]) {
                last = Some(i);
            }
            i += 1;
        }
        proof {
            assert(lv.take(lines@.len() as int) =~= lv);
        }
        match last {
            None => Ok(None),
            Some(j) => match parse_line(&lines[j]) {
                Ok(ev) => Ok(Some(ev.uuid)),
                Err(e) => Err(e),
            },
        }
    }

    /// Every record of the given file content in file order, blank lines
    /// skipped, each line parsed on its own: a malformed line yields an error
    /// at its position without aborting the rest.  With `starting_from`
    /// given, the result is the suffix that starts at that identifier's
    /// record, inclusive — the caller that resumes skips the first element
    /// itself — and is empty when the identifier never appears.  Lines that
    /// fail to parse never match the identifier searched for.
    pub fn read_events(&self, content: &Vec<u8>, starting_from: Option<EventId>) -> (r: Vec<
        Result<KnownEvent<Vec<u8>>, Error>,
    >)
        ensures
            outcomes_match(read_result(content@, from_spec(starting_from)), r@),
    {
        let lines = split_lines(content);
        let ghost lv = lines_of(content@);
        let ghost from = from_spec(starting_from);
        let mut out: Vec<Result<KnownEvent<Vec<u8>>, Error>> = Vec::new();
        let mut skipping: bool = starting_from.is_some();
        let mut i: usize = 0;
        while i < lines.len()
            invariant
                line_views(lines@) == lines_of(content@),
                0 <= i <= lines@.len(),
                lv == lines_of(content@),
                from == from_spec(starting_from),
                skipping ==> starting_from is Some,
                starting_from is None ==> !skipping,
                skipping ==> goal_of(lv.take(i as int), from).len() == 0 && out@.len() == 0,
                !skipping ==> outcomes_match(goal_of(lv.take(i as int), from), out@),
                (!skipping && starting_from is Some) ==> goal_of(lv.take(i as int), from).len()
                    > 0,
            decreases lines@.len() - i,
        {
            proof {
                assert(lv.take(i as int + 1).drop_last() =~= lv.take(i as int));
                assert(lv.take(i as int + 1).last() == lines@[i as int]@);
            }
            if !is_blank_line(&lines[i]) {
                let ghost o_pre = outcomes_of(lv.take(i as int));
                let ghost x = line_outcome(lines@[i as int]@);
                proof {
                    assert(outcomes_of(lv.take(i as int + 1)) == o_pre.push(x));
                    assert(o_pre.push(x).drop_last() =~= o_pre);
                }
                let item = parse_line(&lines[i]);
                let keep: bool = if skipping {
                    match (&item, &starting_from) {
                        (Ok(ev), Some(t)) => ev.uuid.0 == t.0,
                        _ => false,
                    }
                } else {
                    true
                };
                if keep {
                    if skipping {
                        skipping = false;
                    }
                    out.push(item);
                }
            }
            i += 1;
        }
        proof {
            assert(lv.take(lines@.len() as int) =~= lv);
        }
        out
    }
}

// ---------------------------------------------------------------------------
// Laws of the flat-file store.  They are stated over the content model, which
// the executable operations realize exactly (their `ensures` above).
// ---------------------------------------------------------------------------
/// Appending newline-free bytes extends the final raw line and nothing else.
proof fn lemma_split_raw_append(c: Seq<u8>, r: Seq<u8>)
    requires
        forall|j: int| 0 <= j < r.len() ==> #[trigger] r[j] != 10,
    ensures
        split_raw(c + r) == split_raw(c).update(
            split_raw(c).len() - 1,
            split_raw(c).last() + r,
        ),
    decreases r.len(),
{
    lemma_split_raw_nonempty(c);
    let s = split_raw(c);
    if r.len() == 0 {
        assert(c + r =~= c);
        assert(s.last() + r =~= s.last());
        assert(s.update(s.len() - 1, s.last() + r) =~= s);
    } else {
        let r0 = r.drop_last();
        lemma_split_raw_append(c, r0);
        let cr0 = c + r0;
        assert(c + r =~= cr0.push(r.last()));
        assert(cr0.push(r.last()).drop_last() =~= cr0);
        assert(split_raw(cr0).last() == s.last() + r0);
        assert((s.last() + r0).push(r.last()) =~= s.last() + r);
        assert(split_raw(c + r) =~= s.update(s.len() - 1, s.last() + r));
    }
}

/// A newline closes the current raw line and opens an empty one.
proof fn lemma_split_raw_newline(c: Seq<u8>)
    ensures
        split_raw(c.push(10)) == split_raw(c).push(Seq::<u8>::empty()),
{
    assert(c.push(10).drop_last() =~= c);
}

/// The single line of one record: identifier text, tab, payload.
pub open spec fn record_line(id: u128, payload: Seq<u8>) -> Seq<u8> {
    id_text(id) + seq![9u8] + payload
}

/// The record line of a well-framed payload carries no line break and no
/// trailing carriage return, and reads back as exactly its record.
proof fn lemma_record_line_facts(id: u128, p: Seq<u8>)
    requires
        payload_wf(p),
    ensures
        forall|j: int| 0 <= j < record_line(id, p).len() ==> #[trigger] record_line(id, p)[j]
            != 10,
        strip_cr(record_line(id, p)) == record_line(id, p),
        !is_blank(record_line(id, p)),
        line_outcome(record_line(id, p)) == Ok::<(int, Seq<u8>), LineError>((id as int, p)),
{
    crate::event_id::lemma_id_text_wf(id);
    crate::event_id::lemma_id_text_value(id);
    let line = record_line(id, p);
    let t = id_text(id);
    assert(line.len() == 37 + p.len());
    assert forall|j: int| 0 <= j < line.len() implies #[trigger] line[j] != 10 by {
        if j < 36 {
            assert(crate::event_id::id_text_byte_ok(t, j));
            assert(line[j] == t[j]);
        } else if j == 36 {
            assert(line[j] == 9);
        } else {
            assert(line[j] == p[j - 37]);
        }
    }
    if p.len() > 0 {
        assert(line.last() == p[p.len() - 1]);
    } else {
        assert(line.last() == 9);
    }
    assert(strip_cr(line) == line);
    assert(crate::event_id::id_text_byte_ok(t, 0));
    assert(line[0] == t[0]);
    assert(!crate::event_id::is_dash_pos(0));
    assert(crate::event_id::is_hex_digit(t[0]));
    assert(!is_space(line[0]));
    assert(!is_blank(line));
    // the first tab sits right after the identifier text
    lemma_tab_pos(line);
    assert(line[36] == 9);
    assert forall|j: int| 0 <= j < 36 implies line[j] != 9 by {
        assert(crate::event_id::id_text_byte_ok(t, j));
        assert(line[j] == t[j]);
    }
    if tab_pos(line) < 36 {
        assert(line[tab_pos(line)] == 9);
        assert(false);
    }
    if tab_pos(line) > 36 {
        assert(line[36] != 9);
        assert(false);
    }
    assert(tab_pos(line) == 36);
    assert(line.take(36) =~= t);
    assert(line.skip(37) =~= p);
}

/// Publishing appends one line: the lines of the new content are the lines of
/// the old content, unchanged, with the new record's line after them.  This is
/// the newline self-healing guarantee seen through the line model.
pub proof fn lemma_lines_after_append(c: Seq<u8>, id: u128, p: Seq<u8>)
    requires
        payload_wf(p),
    ensures
        lines_of(store_append(c, id, p)) == lines_of(c).push(record_line(id, p)),
{
    lemma_split_raw_nonempty(c);
    let line = record_line(id, p);
    lemma_record_line_facts(id, p);
    let s = split_raw(c);
    let f = |l: Seq<u8>| strip_cr(l);
    assert(record_bytes(id, p) =~= line.push(10));
    if needs_newline(c) {
        // the final raw line of c is not empty, so every line of c is kept
        let s0 = split_raw(c.drop_last());
        lemma_split_raw_nonempty(c.drop_last());
        assert(split_raw(c) == s0.update(s0.len() - 1, s0.last().push(c.last())));
        assert(split_raw(c).last().len() > 0);
        let c1 = c + seq![10u8];
        assert(c1 =~= c.push(10));
        lemma_split_raw_newline(c);
        assert(split_raw(c1) == s.push(Seq::<u8>::empty()));
        let c2 = c1 + line;
        lemma_split_raw_append(c1, line);
        assert(Seq::<u8>::empty() + line =~= line);
        assert(split_raw(c2) =~= s.push(line));
        let c3 = store_append(c, id, p);
        assert(c3 =~= c2.push(10));
        lemma_split_raw_newline(c2);
        assert(split_raw(c3) == s.push(line).push(Seq::<u8>::empty()));
        assert(lines_of(c3) =~= s.push(line).map_values(f));
        assert(s.push(line).map_values(f) =~= s.map_values(f).push(line));
        assert(lines_of(c) == s.map_values(f));
    } else {
        let c2 = c + line;
        lemma_split_raw_append(c, line);
        let c3 = store_append(c, id, p);
        assert(c3 =~= c2.push(10));
        lemma_split_raw_newline(c2);
        let s2 = s.update(s.len() - 1, s.last() + line);
        assert(split_raw(c3) == s2.push(Seq::<u8>::empty()));
        assert(lines_of(c3) =~= s2.map_values(f));
        if c.len() == 0 {
            assert(s =~= seq![Seq::<u8>::empty()]);
            assert(s.last() + line =~= line);
            assert(s2 =~= seq![line]);
            assert(lines_of(c) =~= Seq::<Seq<u8>>::empty());
            assert(s2.map_values(f) =~= lines_of(c).push(line));
        } else {
            // c ends with a newline, so its final raw line is empty
            assert(c.drop_last().push(10) =~= c);
            lemma_split_raw_newline(c.drop_last());
            assert(s == split_raw(c.drop_last()).push(Seq::<u8>::empty()));
            assert(s.last().len() == 0);
            assert(s.last() + line =~= line);
            assert(lines_of(c) == s.drop_last().map_values(f));
            assert(s2 =~= s.drop_last().push(line));
            assert(s2.map_values(f) =~= s.drop_last().map_values(f).push(line));
        }
    }
}

/// Publishing appends one outcome: reading the new content from the beginning
/// yields every outcome of the old content, in order, then the new record.
pub proof fn lemma_outcomes_after_append(c: Seq<u8>, id: u128, p: Seq<u8>)
    requires
        payload_wf(p),
    ensures
        outcomes_of(lines_of(store_append(c, id, p))) == outcomes_of(lines_of(c)).push(
            Ok::<(int, Seq<u8>), LineError>((id as int, p)),
        ),
{
    lemma_lines_after_append(c, id, p);
    lemma_record_line_facts(id, p);
    let ls = lines_of(c);
    let line = record_line(id, p);
    assert(ls.push(line).drop_last() =~= ls);
    assert(outcomes_of(ls.push(line)) == outcomes_of(ls).push(line_outcome(line)));
}

/// An empty store holds no lines and no outcomes, and its latest event is
/// `None`.
pub proof fn lemma_empty_store()
    ensures
        lines_of(Seq::<u8>::empty()) == Seq::<Seq<u8>>::empty(),
        outcomes_of(lines_of(Seq::<u8>::empty())) == Seq::<LineOutcome>::empty(),
        latest_result(Seq::<u8>::empty()) == Ok::<Option<int>, LineError>(None),
{
    let raw = split_raw(Seq::<u8>::empty());
    assert(raw =~= seq![Seq::<u8>::empty()]);
    assert(raw.drop_last() =~= Seq::<Seq<u8>>::empty());
    assert(lines_of(Seq::<u8>::empty()) =~= Seq::<Seq<u8>>::empty());
}

/// Round trip: publishing `(id, p)` on an empty store and reading from the
/// beginning yields exactly one record, `(id, p)` itself.
pub proof fn lemma_round_trip(id: u128, p: Seq<u8>)
    requires
        payload_wf(p),
    ensures
        read_result(store_append(Seq::<u8>::empty(), id, p), None) == seq![
            Ok::<(int, Seq<u8>), LineError>((id as int, p)),
        ],
{
    lemma_empty_store();
    lemma_outcomes_after_append(Seq::<u8>::empty(), id, p);
    assert(Seq::<LineOutcome>::empty().push(Ok::<(int, Seq<u8>), LineError>((id as int, p))) =~=
        seq![Ok::<(int, Seq<u8>), LineError>((id as int, p))]);
}

/// Latest-event correctness: right after publishing `(id, p)`, the latest
/// event of the store is `id`, whatever stood in the file before.
pub proof fn lemma_latest_after_append(c: Seq<u8>, id: u128, p: Seq<u8>)
    requires
        payload_wf(p),
    ensures
        latest_result(store_append(c, id, p)) == Ok::<Option<int>, LineError>(Some(id as int)),
{
    lemma_outcomes_after_append(c, id, p);
}

// ---------------------------------------------------------------------------
// Laws over a whole history of publishes.
// ---------------------------------------------------------------------------
/// The outcomes that a history of publishes promises: one record per publish,
/// in publish order.
pub open spec fn published(recs: Seq<(u128, Seq<u8>)>) -> Seq<LineOutcome> {
    Seq::new(recs.len(), |k: int| Ok((recs[k].0 as int, recs[k].1)))
}

/// The store content after publishing every record of `recs`, in order, over
/// content `c`.
pub open spec fn append_all(c: Seq<u8>, recs: Seq<(u128, Seq<u8>)>) -> Seq<u8>
    decreases recs.len(),
{
    if recs.len() == 0 {
        c
    } else {
        store_append(append_all(c, recs.drop_last()), recs.last().0, recs.last().1)
    }
}

/// Every payload of the history is one the record format can frame.
pub open spec fn recs_wf(recs: Seq<(u128, Seq<u8>)>) -> bool {
    forall|k: int| 0 <= k < recs.len() ==> payload_wf((#[trigger] recs[k]).1)
}

/// No two publishes of the history share an identifier.
pub open spec fn ids_distinct(recs: Seq<(u128, Seq<u8>)>) -> bool {
    forall|a: int, b: int|
        0 <= a < b < recs.len() ==> (#[trigger] recs[a]).0 != (#[trigger] recs[b]).0
}

/// Whether some publish of the history used the identifier value `t`.
pub open spec fn has_id(recs: Seq<(u128, Seq<u8>)>, t: int) -> bool {
    exists|k: int| 0 <= k < recs.len() && (#[trigger] recs[k]).0 as int == t
}

/// Order preservation: after any history of publishes over content `c`,
/// reading from the beginning yields the outcomes of `c` followed by the
/// published records, in publish order — nothing reordered, nothing lost.
pub proof fn lemma_order_preservation(c: Seq<u8>, recs: Seq<(u128, Seq<u8>)>)
    requires
        recs_wf(recs),
    ensures
        outcomes_of(lines_of(append_all(c, recs))) == outcomes_of(lines_of(c)) + published(recs),
    decreases recs.len(),
{
    if recs.len() == 0 {
        assert(published(recs) =~= Seq::<LineOutcome>::empty());
        assert(outcomes_of(lines_of(c)) + published(recs) =~= outcomes_of(lines_of(c)));
    } else {
        let r0 = recs.drop_last();
        lemma_order_preservation(c, r0);
        assert(payload_wf(recs[recs.len() - 1].1));
        lemma_outcomes_after_append(append_all(c, r0), recs.last().0, recs.last().1);
        assert((outcomes_of(lines_of(c)) + published(r0)).push(
            Ok::<(int, Seq<u8>), LineError>((recs.last().0 as int, recs.last().1)),
        ) =~= outcomes_of(lines_of(c)) + published(recs));
    }
}

/// Order preservation from an empty store: reading yields exactly the
/// published records in publish order.
pub proof fn lemma_order_preservation_from_empty(recs: Seq<(u128, Seq<u8>)>)
    requires
        recs_wf(recs),
    ensures
        read_result(append_all(Seq::<u8>::empty(), recs), None) == published(recs),
{
    lemma_empty_store();
    lemma_order_preservation(Seq::<u8>::empty(), recs);
    assert(Seq::<LineOutcome>::empty() + published(recs) =~= published(recs));
}

/// Searching for an identifier that no outcome carries skips everything.
proof fn lemma_skip_until_absent(s: Seq<LineOutcome>, t: int)
    requires
        forall|j: int| 0 <= j < s.len() ==> !outcome_is(#[trigger] s[j], t),
    ensures
        skip_until(s, t) == Seq::<LineOutcome>::empty(),
    decreases s.len(),
{
    if s.len() > 0 {
        lemma_skip_until_absent(s.drop_last(), t);
    }
}

/// Resuming over a distinct history lands exactly on the record asked for.
proof fn lemma_skip_published(recs: Seq<(u128, Seq<u8>)>, k: int)
    requires
        ids_distinct(recs),
        0 <= k < recs.len(),
    ensures
        skip_until(published(recs), recs[k].0 as int) == published(recs).skip(k),
    decreases recs.len(),
{
    let s = published(recs);
    let t = recs[k].0 as int;
    let r0 = recs.drop_last();
    let s0 = published(r0);
    assert(s.drop_last() =~= s0);
    if k < recs.len() - 1 {
        lemma_skip_published(r0, k);
        assert(s0.skip(k).len() > 0);
        assert(skip_until(s, t) == s0.skip(k).push(s.last()));
        assert(s0.skip(k).push(s.last()) =~= s.skip(k));
    } else {
        assert forall|j: int| 0 <= j < s0.len() implies !outcome_is(#[trigger] s0[j], t) by {
            assert(recs[j].0 != recs[k].0);
        }
        lemma_skip_until_absent(s0, t);
        assert(outcome_is(s.last(), t));
        assert(seq![s.last()] =~= s.skip(k));
    }
}

/// Resumption: after publishing a history with distinct identifiers on an
/// empty store, reading from the `k`-th identifier yields the `k`-th record
/// (inclusive) and everything after it, in order.
pub proof fn lemma_resumption(recs: Seq<(u128, Seq<u8>)>, k: int)
    requires
        recs_wf(recs),
        ids_distinct(recs),
        0 <= k < recs.len(),
    ensures
        read_result(append_all(Seq::<u8>::empty(), recs), Some(recs[k].0 as int)) == published(
            recs,
        ).skip(k),
{
    lemma_empty_store();
    lemma_order_preservation(Seq::<u8>::empty(), recs);
    assert(Seq::<LineOutcome>::empty() + published(recs) =~= published(recs));
    lemma_skip_published(recs, k);
}

/// Resumption from an absent identifier: the read yields nothing at all —
/// this backend's deliberate answer, where the relational backend errs.
pub proof fn lemma_resumption_absent(recs: Seq<(u128, Seq<u8>)>, t: int)
    requires
        recs_wf(recs),
        !has_id(recs, t),
    ensures
        read_result(append_all(Seq::<u8>::empty(), recs), Some(t)) == Seq::<LineOutcome>::empty(),
{
    lemma_empty_store();
    lemma_order_preservation(Seq::<u8>::empty(), recs);
    let s = published(recs);
    assert(Seq::<LineOutcome>::empty() + s =~= s);
    assert forall|j: int| 0 <= j < s.len() implies !outcome_is(#[trigger] s[j], t) by {
        assert(!((recs[j]).0 as int == t));
    }
    lemma_skip_until_absent(s, t);
}

/// What resuming yields on any content at all, malformed lines included: the
/// result is empty exactly when no record carries the identifier, and
/// otherwise is the suffix of the full read that starts at the first outcome
/// carrying it — outcomes that are errors are passed over by the search and
/// never treated as a match.
pub proof fn lemma_skip_until_characterization(s: Seq<LineOutcome>, t: int)
    ensures
        skip_until(s, t).len() == 0 ==> forall|k: int| 0 <= k < s.len() ==> !outcome_is(
            #[trigger] s[k],
            t,
        ),
        skip_until(s, t).len() > 0 ==> exists|j: int|
            0 <= j < s.len() && outcome_is(#[trigger] s[j], t) && (forall|i: int|
                0 <= i < j ==> !outcome_is(#[trigger] s[i], t)) && skip_until(s, t) == s.skip(j),
    decreases s.len(),
{
    if s.len() > 0 {
        let s0 = s.drop_last();
        lemma_skip_until_characterization(s0, t);
        let r0 = skip_until(s0, t);
        if r0.len() > 0 {
            let j = choose|j: int|
                0 <= j < s0.len() && outcome_is(#[trigger] s0[j], t) && (forall|i: int|
                    0 <= i < j ==> !outcome_is(#[trigger] s0[i], t)) && r0 == s0.skip(j);
            assert(r0.push(s.last()) =~= s.skip(j));
            assert(outcome_is(s[j], t));
            assert forall|i: int| 0 <= i < j implies !outcome_is(#[trigger] s[i], t) by {
                assert(s[i] == s0[i]);
            }
            assert(0 <= j < s.len() && outcome_is(s[j], t) && (forall|i: int|
                0 <= i < j ==> !outcome_is(#[trigger] s[i], t)) && skip_until(s, t) == s.skip(j));
        } else if outcome_is(s.last(), t) {
            let j = s.len() - 1;
            assert(seq![s.last()] =~= s.skip(j));
            assert forall|i: int| 0 <= i < j implies !outcome_is(#[trigger] s[i], t) by {
                assert(s[i] == s0[i]);
            }
            assert(0 <= j < s.len() && outcome_is(s[j], t) && (forall|i: int|
                0 <= i < j ==> !outcome_is(#[trigger] s[i], t)) && skip_until(s, t) == s.skip(j));
        } else {
            assert forall|k: int| 0 <= k < s.len() implies !outcome_is(#[trigger] s[k], t) by {
                if k < s.len() - 1 {
                    assert(s[k] == s0[k]);
                }
            }
        }
    }
}

/// The outcomes of a prefix of the lines are a prefix of the outcomes of all
/// the lines.
proof fn lemma_outcomes_prefix(ls: Seq<Seq<u8>>, m: int)
    requires
        0 <= m <= ls.len(),
    ensures
        outcomes_of(ls.take(m)).len() <= outcomes_of(ls).len(),
        outcomes_of(ls).take(outcomes_of(ls.take(m)).len() as int) == outcomes_of(ls.take(m)),
    decreases ls.len(),
{
    if m == ls.len() {
        assert(ls.take(m) =~= ls);
        assert(outcomes_of(ls).take(outcomes_of(ls).len() as int) =~= outcomes_of(ls));
    } else {
        let l0 = ls.drop_last();
        lemma_outcomes_prefix(l0, m);
        assert(l0.take(m) =~= ls.take(m));
        let o0 = outcomes_of(l0);
        let p = outcomes_of(ls.take(m));
        if is_blank(ls.last()) {
            assert(outcomes_of(ls) == o0);
        } else {
            assert(outcomes_of(ls) == o0.push(line_outcome(ls.last())));
            assert(o0.push(line_outcome(ls.last())).take(p.len() as int) =~= o0.take(
                p.len() as int,
            ));
        }
    }
}

/// Malformed-line detection: a non-blank line without a tab is surfaced as a
/// missing-tab error at its own position of the full read — never a silent
/// skip.  Its position is the count of non-blank lines up to and including it,
/// less one.
pub proof fn lemma_malformed_line_is_surfaced(c: Seq<u8>, k: int)
    requires
        0 <= k < lines_of(c).len(),
        !is_blank(lines_of(c)[k]),
        tab_pos(lines_of(c)[k]) >= lines_of(c)[k].len(),
    ensures
        ({
            let i = outcomes_of(lines_of(c).take(k + 1)).len() - 1;
            &&& 0 <= i < read_result(c, None).len()
            &&& read_result(c, None)[i] == Err::<(int, Seq<u8>), LineError>(LineError::MissingTab)
        }),
{
    let ls = lines_of(c);
    let pre = ls.take(k + 1);
    assert(pre.drop_last() =~= ls.take(k));
    assert(pre.last() == ls[k]);
    assert(outcomes_of(pre) == outcomes_of(ls.take(k)).push(line_outcome(ls[k])));
    assert(line_outcome(ls[k]) == Err::<(int, Seq<u8>), LineError>(LineError::MissingTab));
    lemma_outcomes_prefix(ls, k + 1);
    let p = outcomes_of(pre);
    assert(p.len() >= 1);
    assert(p[p.len() - 1] == line_outcome(ls[k]));
    assert(outcomes_of(ls).take(p.len() as int) == p);
    assert(outcomes_of(ls)[p.len() - 1] == outcomes_of(ls).take(p.len() as int)[p.len() - 1]);
    assert(read_result(c, None) == outcomes_of(ls));
}

} // verus!
