//! The line-oriented decoder for the server-sent-event wire format.
//!
//! One raw line either carries a field (`id`, `event`, `data`, `retry`,
//! followed by `:` and a value) or, when it contains no `:` at all, marks the
//! end of the event under construction. [`EventLine::from_str`] decodes a
//! single line; [`EventBuilder`] folds decoded lines into an accumulating
//! state until a terminator line yields a finished [`Event`].

use vstd::prelude::*;

use crate::error::MasqueError;

verus! {

/// The semantic role of one wire-format line.
///
/// `End` is synthetic: it is produced, never parsed from a field name,
/// whenever a line contains no `:` (the blank-line convention).
#[derive(Clone, Copy, Debug, PartialEq, Eq, Structural)]
pub enum EventTag {
    Id,
    Event,
    Data,
    Retry,
    End,
}

/// The characters of the wire-format field name that `tag` stands for.
/// `End` has no field name: it is never written on the wire.
pub open spec fn spec_tag_name(tag: EventTag) -> Seq<char> {
    match tag {
        EventTag::Id => seq!['i', 'd'],
        EventTag::Event => seq!['e', 'v', 'e', 'n', 't'],
        EventTag::Data => seq!['d', 'a', 't', 'a'],
        EventTag::Retry => seq!['r', 'e', 't', 'r', 'y'],
        EventTag::End => seq![],
    }
}

/// The tag whose field name is exactly `s` (case-sensitive), if any.
pub open spec fn spec_tag_of(s: Seq<char>) -> Option<EventTag> {
    if s.len() == 2 && s[0] == 'i' && s[1] == 'd' {
        Some(EventTag::Id)
    } else if s.len() == 5 && s[0] == 'e' && s[1] == 'v' && s[2] == 'e' && s[3] == 'n' && s[4]
        == 't' {
        Some(EventTag::Event)
    } else if s.len() == 4 && s[0] == 'd' && s[1] == 'a' && s[2] == 't' && s[3] == 'a' {
        Some(EventTag::Data)
    } else if s.len() == 5 && s[0] == 'r' && s[1] == 'e' && s[2] == 't' && s[3] == 'r' && s[4]
        == 'y' {
        Some(EventTag::Retry)
    } else {
        None
    }
}

impl EventTag {
    /// Decodes a field name: the exact, case-sensitive match against the
    /// four known names, anything else being an unrecognized field.
    pub fn from_str(s: &str) -> (r: Result<EventTag, MasqueError>)
        ensures
            r == match spec_tag_of(s@) {
                Some(tag) => Ok::<EventTag, MasqueError>(tag),
                None => Err::<EventTag, MasqueError>(MasqueError::InvalidEventTag),
            },
    {
        let n = s.unicode_len();
        if n == 2 && s.get_char(0) == 'i' && s.get_char(1) == 'd' {
            Ok(EventTag::Id)
        } else if n == 5 && s.get_char(0) == 'e' && s.get_char(1) == 'v' && s.get_char(2) == 'e'
            && s.get_char(3) == 'n' && s.get_char(4) == 't' {
            Ok(EventTag::Event)
        } else if n == 4 && s.get_char(0) == 'd' && s.get_char(1) == 'a' && s.get_char(2) == 't'
            && s.get_char(3) == 'a' {
            Ok(EventTag::Data)
        } else if n == 5 && s.get_char(0) == 'r' && s.get_char(1) == 'e' && s.get_char(2) == 't'
            && s.get_char(3) == 'r' && s.get_char(4) == 'y' {
            Ok(EventTag::Retry)
        } else {
            Err(MasqueError::InvalidEventTag)
        }
    }
}

/// Strips at most one leading space: the wire format allows a single
/// optional space between `:` and the field value.
pub open spec fn spec_strip_leading_space(s: Seq<char>) -> Seq<char> {
    if s.len() > 0 && s[0] == ' ' {
        s.drop_first()
    } else {
        s
    }
}

/// Strips every trailing newline character.
pub open spec fn spec_strip_trailing_newlines(s: Seq<char>) -> Seq<char>
    decreases s.len(),
{
    if s.len() > 0 && s.last() == '\n' {
        spec_strip_trailing_newlines(s.drop_last())
    } else {
        s
    }
}

/// The decoded value of the text standing after the `:` of a field line.
pub open spec fn spec_field_value(s: Seq<char>) -> Seq<char> {
    spec_strip_trailing_newlines(spec_strip_leading_space(s))
}

/// What decoding one raw line yields: a tag with its decoded value, the
/// synthetic terminator when the line has no `:` at all, or
/// `InvalidEventTag` when the token before the first `:` is not a
/// recognized field name.
pub open spec fn spec_parse_line(s: Seq<char>) -> Result<(EventTag, Seq<char>), MasqueError> {
    match s.index_of_first(':') {
        None => Ok((EventTag::End, Seq::empty())),
        Some(i) => match spec_tag_of(s.subrange(0, i)) {
            Some(tag) => Ok((tag, spec_field_value(s.subrange(i + 1, s.len() as int)))),
            None => Err(MasqueError::InvalidEventTag),
        },
    }
}

/// Position of the first `:` of `s`, if any.
fn find_colon(s: &str) -> (r: Option<usize>)
    ensures
        match r {
            Some(i) => i < s@.len() && s@.index_of_first(':') == Some(i as int),
            None => s@.index_of_first(':') is None,
        },
{
    let n = s.unicode_len();
    let mut i: usize = 0;
    while i < n
        invariant
            i <= n,
            n == s@.len(),
            forall|j: int| 0 <= j < i ==> s@[j] != ':',
        decreases n - i,
    {
        if s.get_char(i) == ':' {
            proof {
                s@.index_of_first_ensures(':');
                if s@.index_of_first(':') is None {
                    assert(s@[i as int] == ':');
                    assert(s@.contains(':'));
                    assert(false);
                }
            }
            return Some(i);
        }
        i = i + 1;
    }
    proof {
        s@.index_of_first_ensures(':');
        if s@.index_of_first(':') is Some {
            let k = s@.index_of_first(':')->Some_0;
            assert(s@[k] != ':');
            assert(false);
        }
    }
    None
}

/// One decoded wire-format line: its field tag and its decoded value.
#[derive(Debug, PartialEq)]
pub struct EventLine {
    pub tag: EventTag,
    pub data: String,
}

impl EventLine {
    /// Decodes one raw line, with or without a trailing newline, as
    /// [`spec_parse_line`] says: split at the first `:`; no `:` means the
    /// terminator; an unrecognized token before the `:` is the one
    /// recoverable decoding failure.
    pub fn from_str(s: &str) -> (r: Result<EventLine, MasqueError>)
        ensures
            match spec_parse_line(s@) {
                Ok((tag, value)) => r matches Ok(el) && el.tag == tag && el.data@ == value,
                Err(e) => r == Err::<EventLine, MasqueError>(e),
            },
    {
        let n = s.unicode_len();
        match find_colon(s) {
            None => Ok(EventLine { tag: EventTag::End, data: String::new() }),
            Some(i) => {
                let tag_text = s.substring_char(0, i);
                match EventTag::from_str(tag_text) {
                    Err(e) => Err(e),
                    Ok(tag) => {
                        let mut lo = i + 1;
                        if lo < n && s.get_char(lo) == ' ' {
                            lo = lo + 1;
                        }
                        proof {
                            assert(s@.subrange(lo as int, n as int) =~= spec_strip_leading_space(
                                s@.subrange(i + 1, n as int),
                            ));
                        }
                        let mut hi = n;
                        while hi > lo && s.get_char(hi - 1) == '\n'
                            invariant
                                lo <= hi <= n,
                                n == s@.len(),
                                spec_strip_trailing_newlines(s@.subrange(lo as int, n as int))
                                    == spec_strip_trailing_newlines(
                                    s@.subrange(lo as int, hi as int),
                                ),
                            decreases hi,
                        {
                            proof {
                                let u = s@.subrange(lo as int, hi as int);
                                assert(u.last() == s@[hi - 1]);
                                assert(u.drop_last() =~= s@.subrange(lo as int, hi - 1));
                            }
                            hi = hi - 1;
                        }
                        proof {
                            let u = s@.subrange(lo as int, hi as int);
                            assert(hi > lo ==> u.last() == s@[hi - 1]);
                            assert(spec_strip_trailing_newlines(u) == u);
                        }
                        let value = s.substring_char(lo, hi);
                        Ok(EventLine { tag, data: value.to_owned() })
                    },
                }
            },
        }
    }
}

/// The decoded content of an event or of a builder still accumulating one:
/// the two optional fields and the joined data payload.
#[verifier::ext_equal]
pub struct EventModel {
    pub id: Option<Seq<char>>,
    pub event: Option<Seq<char>>,
    pub data: Seq<char>,
}

/// The content of a fresh builder: both fields unset, no data yet.
pub open spec fn spec_empty_builder() -> EventModel {
    EventModel { id: None, event: None, data: Seq::empty() }
}

/// One fully decoded wire-format message. Created by
/// [`EventBuilder::build`]; immutable afterwards.
#[derive(Debug, PartialEq)]
pub struct Event {
    pub id: Option<String>,
    pub event: Option<String>,
    pub data: String,
}

impl View for Event {
    type V = EventModel;

    open spec fn view(&self) -> EventModel {
        EventModel { id: self.id.deep_view(), event: self.event.deep_view(), data: self.data@ }
    }
}

impl Event {
    /// Assembles an event from its parts.
    pub fn new(id: Option<String>, event: Option<String>, data: String) -> (e: Event)
        ensures
            e@ == (EventModel { id: id.deep_view(), event: event.deep_view(), data: data@ }),
    {
        Event { id, event, data }
    }

    /// The `id` field, if one was seen.
    pub fn id(&self) -> (r: &Option<String>)
        ensures
            r.deep_view() == self@.id,
    {
        &self.id
    }

    /// The `event` field, if one was seen.
    pub fn event(&self) -> (r: &Option<String>)
        ensures
            r.deep_view() == self@.event,
    {
        &self.event
    }

    /// The accumulated data payload.
    pub fn data(&self) -> (r: &str)
        ensures
            r@ == self@.data,
    {
        self.data.as_str()
    }
}

/// What a builder yields for one line or one batch of lines: either the
/// builder keeps accumulating, or a terminator completed an event.
#[derive(Debug, PartialEq)]
pub enum EventLineResponse {
    Continue(EventBuilder),
    Complete(Event),
}

/// The decoded content of an [`EventLineResponse`], with both arms reduced
/// to [`EventModel`]: a completed event carries exactly the content the
/// builder had accumulated.
#[verifier::ext_equal]
pub enum StepModel {
    Continue(EventModel),
    Complete(EventModel),
}

impl View for EventLineResponse {
    type V = StepModel;

    open spec fn view(&self) -> StepModel {
        match self {
            EventLineResponse::Continue(b) => StepModel::Continue(b@),
            EventLineResponse::Complete(e) => StepModel::Complete(e@),
        }
    }
}

/// The `\n`-join rule for `data` fields: a first field simply sets the
/// payload; every later one is appended after a newline.
pub open spec fn spec_extend_data(data: Seq<char>, more: Seq<char>) -> Seq<char> {
    if data.len() == 0 {
        more
    } else {
        data + seq!['\n'] + more
    }
}

/// The builder's transition for one raw line: `id` and `event` overwrite
/// their field, `data` joins per [`spec_extend_data`], `retry` and
/// undecodable lines change nothing, and the terminator completes the
/// accumulated content.
pub open spec fn spec_step(b: EventModel, line: Seq<char>) -> StepModel {
    match spec_parse_line(line) {
        Ok((tag, value)) => match tag {
            EventTag::Id => StepModel::Continue(EventModel { id: Some(value), ..b }),
            EventTag::Event => StepModel::Continue(EventModel { event: Some(value), ..b }),
            EventTag::Data => StepModel::Continue(
                EventModel { data: spec_extend_data(b.data, value), ..b },
            ),
            EventTag::Retry => StepModel::Continue(b),
            EventTag::End => StepModel::Complete(b),
        },
        Err(_) => StepModel::Continue(b),
    }
}

/// [`spec_step`] folded over a batch of lines in order, short-circuiting at
/// the first terminator: lines after it are not processed.
pub open spec fn spec_steps(b: EventModel, lines: Seq<Seq<char>>) -> StepModel
    decreases lines.len(),
{
    if lines.len() == 0 {
        StepModel::Continue(b)
    } else {
        match spec_step(b, lines[0]) {
            StepModel::Continue(b2) => spec_steps(b2, lines.drop_first()),
            StepModel::Complete(e) => StepModel::Complete(e),
        }
    }
}

/// The accumulator for one in-flight event. A fresh builder is already
/// accumulating; a terminator line consumes it into an [`Event`].
#[derive(Clone, Debug, PartialEq)]
pub struct EventBuilder {
    pub id: Option<String>,
    pub event: Option<String>,
    pub data: String,
}

impl View for EventBuilder {
    type V = EventModel;

    open spec fn view(&self) -> EventModel {
        EventModel { id: self.id.deep_view(), event: self.event.deep_view(), data: self.data@ }
    }
}

impl EventBuilder {
    /// A fresh builder: both fields unset, no data yet.
    pub fn new() -> (b: EventBuilder)
        ensures
            b@ == spec_empty_builder(),
    {
        let b = EventBuilder { id: None, event: None, data: String::new() };
        proof {
            assert(b@ =~= spec_empty_builder());
        }
        b
    }

    /// Sets (or clears) the `id` field.
    pub fn id(self, id: Option<String>) -> (b: EventBuilder)
        ensures
            b@ == (EventModel { id: id.deep_view(), ..self@ }),
    {
        EventBuilder { id, ..self }
    }

    /// Sets (or clears) the `event` field.
    pub fn event(self, event: Option<String>) -> (b: EventBuilder)
        ensures
            b@ == (EventModel { event: event.deep_view(), ..self@ }),
    {
        EventBuilder { event, ..self }
    }

    /// Replaces the data payload outright.
    pub fn data(self, data: String) -> (b: EventBuilder)
        ensures
            b@ == (EventModel { data: data@, ..self@ }),
    {
        EventBuilder { data, ..self }
    }

    /// Appends one `data` field value under the `\n`-join rule.
    pub fn extend_data(self, data: &str) -> (b: EventBuilder)
        ensures
            b@ == (EventModel { data: spec_extend_data(self@.data, data@), ..self@ }),
    {
        let mut b = self;
        if b.data.as_str().is_empty() {
            b.data = data.to_owned();
        } else {
            b.data.append("\n");
            b.data.append(data);
            proof {
                reveal_strlit("\n");
                assert(b@.data =~= spec_extend_data(self@.data, data@));
            }
        }
        b
    }

    /// Applies one raw line, as [`spec_step`] says.
    pub fn read_in_line(self, line: &str) -> (r: EventLineResponse)
        ensures
            r@ == spec_step(self@, line@),
    {
        match EventLine::from_str(line) {
            Ok(el) => match el.tag {
                EventTag::Id => EventLineResponse::Continue(self.id(Some(el.data))),
                EventTag::Event => EventLineResponse::Continue(self.event(Some(el.data))),
                EventTag::Data => EventLineResponse::Continue(self.extend_data(el.data.as_str())),
                EventTag::Retry => EventLineResponse::Continue(self),
                EventTag::End => EventLineResponse::Complete(self.build()),
            },
            Err(_) => EventLineResponse::Continue(self),
        }
    }

    /// Applies a batch of raw lines in order, stopping at the first
    /// terminator: per [`spec_steps`], lines after it are not processed and
    /// must be resubmitted by the caller.
    #[verifier::loop_isolation(false)]
    pub fn read_in_lines(self, lines: Vec<&str>) -> (r: EventLineResponse)
        ensures
            r@ == spec_steps(self@, lines.deep_view()),
    {
        let ghost orig = self@;
        let mut b = self;
        let n = lines.len();
        let mut k: usize = 0;
        proof {
            assert(lines.deep_view().skip(0) =~= lines.deep_view());
        }
        while k < n
            invariant
                k <= n,
                n == lines.len(),
                spec_steps(orig, lines.deep_view()) == spec_steps(
                    b@,
                    lines.deep_view().skip(k as int),
                ),
            decreases n - k,
        {
            proof {
                assert(lines.deep_view().skip(k as int).drop_first() =~= lines.deep_view().skip(
                    k as int + 1,
                ));
                assert(lines.deep_view().skip(k as int)[0] == lines.deep_view()[k as int]);
                assert(lines.deep_view()[k as int] == lines@[k as int]@);
            }
            let ghost bm = b@;
            let resp = b.read_in_line(lines[k]);
            proof {
                assert(resp@ == spec_step(bm, lines.deep_view().skip(k as int)[0]));
                assert(spec_steps(bm, lines.deep_view().skip(k as int)) == match resp@ {
                    StepModel::Continue(b2) => spec_steps(
                        b2,
                        lines.deep_view().skip(k as int + 1),
                    ),
                    StepModel::Complete(e) => StepModel::Complete(e),
                });
            }
            match resp {
                EventLineResponse::Continue(b2) => {
                    b = b2;
                },
                EventLineResponse::Complete(_) => {
                    proof {
                        assert(resp@ is Complete);
                        assert(spec_steps(orig, lines.deep_view()) == resp@);
                    }
                    return resp;
                },
            }
            k = k + 1;
        }
        proof {
            assert(lines.deep_view().skip(n as int) =~= Seq::<Seq<char>>::empty());
        }
        EventLineResponse::Continue(b)
    }

    /// Consumes the builder into the event holding exactly its accumulated
    /// content.
    pub fn build(self) -> (e: Event)
        ensures
            e@ == self@,
    {
        Event::new(self.id, self.event, self.data)
    }
}

/// A line with no `:` decodes to the synthetic terminator with empty data.
pub proof fn lemma_line_without_colon_is_end(s: Seq<char>)
    requires
        forall|i: int| 0 <= i < s.len() ==> s[i] != ':',
    ensures
        spec_parse_line(s) == Ok::<(EventTag, Seq<char>), MasqueError>(
            (EventTag::End, Seq::<char>::empty()),
        ),
{
    s.index_of_first_ensures(':');
    if s.index_of_first(':') is Some {
        let k = s.index_of_first(':')->Some_0;
        assert(s[k] != ':');
        assert(false);
    }
}

/// A field line `"<tag>: <value>\n"` for a recognized tag decodes to that
/// tag, with exactly the one leading space and the trailing newline
/// stripped, so the decoded value is `value` itself. `value` may contain
/// further `:` characters; it only may not end in a newline of its own,
/// since a trailing newline run is stripped as a whole.
pub proof fn lemma_field_line_decodes(tag: EventTag, value: Seq<char>)
    requires
        tag != EventTag::End,
        value.len() > 0 ==> value[value.len() - 1] != '\n',
    ensures
        spec_parse_line(spec_tag_name(tag) + seq![':', ' '] + value + seq!['\n'])
            == Ok::<(EventTag, Seq<char>), MasqueError>((tag, value)),
{
    let name = spec_tag_name(tag);
    let line = name + seq![':', ' '] + value + seq!['\n'];
    let tail = line.subrange(name.len() as int + 1, line.len() as int);
    assert(line[name.len() as int] == ':');
    assert(forall|j: int| 0 <= j < name.len() ==> line[j] == name[j]);
    assert(forall|j: int| 0 <= j < name.len() ==> line[j] != ':') by {
        match tag {
            EventTag::Id => {
                assert(name[0] != ':' && name[1] != ':');
            },
            EventTag::Event => {
                assert(name[0] != ':' && name[1] != ':' && name[2] != ':' && name[3] != ':'
                    && name[4] != ':');
            },
            EventTag::Data => {
                assert(name[0] != ':' && name[1] != ':' && name[2] != ':' && name[3] != ':');
            },
            EventTag::Retry => {
                assert(name[0] != ':' && name[1] != ':' && name[2] != ':' && name[3] != ':'
                    && name[4] != ':');
            },
            EventTag::End => {
            },
        }
    }
    line.index_of_first_ensures(':');
    if line.index_of_first(':') is None {
        assert(line.contains(':'));
        assert(false);
    }
    let k = line.index_of_first(':')->Some_0;
    assert(k == name.len()) by {
        if k < name.len() {
            assert(line[k] != ':');
        }
        if k > name.len() {
            assert(line[name.len() as int] != ':');
        }
    }
    assert(line.subrange(0, k) =~= name);
    assert(spec_tag_of(name) == Some(tag));
    assert(tail =~= seq![' '] + value + seq!['\n']);
    assert(spec_strip_leading_space(tail) =~= value + seq!['\n']);
    let v = value + seq!['\n'];
    assert(v.drop_last() =~= value);
    assert(spec_strip_trailing_newlines(v) == spec_strip_trailing_newlines(value));
    assert(spec_strip_trailing_newlines(value) == value);
    assert(spec_field_value(tail) == value);
}

/// A line that fails to decode — an unrecognized token before its first
/// `:` — leaves the accumulating builder unchanged and does not terminate
/// it.
pub proof fn lemma_unknown_field_is_ignored(b: EventModel, line: Seq<char>)
    requires
        spec_parse_line(line) is Err,
    ensures
        spec_step(b, line) == StepModel::Continue(b),
{
}

} // verus!
