//! The executable scanner: one call of `step` per input byte.
use vstd::prelude::*;
use crate::model::{
    accepts, close_token, fill_slot, closed_medias, empty_media, end_line, enter_value, header_token,
    initial_state, media_complete, operator_of, state_within, step, token_span, ConnSpans,
    MediaModel, OriginSpans, Operator, Phase, ScanModel, Section, Span, CR, EQUALS, LF, SPACE,
};
use crate::number::{decode_port, decode_time};

verus! {

/// A media block as read so far.
pub struct MediaDraft {
    pub media_type: Option<Span>,
    pub port: Option<(u16, i32)>,
    pub protocol: Option<Span>,
    pub formats: Vec<Span>,
    pub connection: Option<ConnSpans>,
    pub attributes: Vec<Span>,
}

impl View for MediaDraft {
    type V = MediaModel;

    open spec fn view(&self) -> MediaModel {
        MediaModel {
            media_type: self.media_type,
            port: self.port,
            protocol: self.protocol,
            formats: self.formats@,
            connection: self.connection,
            attributes: self.attributes@,
        }
    }
}

impl MediaDraft {
    pub fn new() -> (r: MediaDraft)
        ensures
            r@ == empty_media(),
    {
        MediaDraft {
            media_type: None,
            port: None,
            protocol: None,
            formats: Vec::new(),
            connection: None,
            attributes: Vec::new(),
        }
    }

    pub fn is_complete(&self) -> (r: bool)
        ensures
            r == media_complete(self@),
    {
        self.media_type.is_some() && self.port.is_some() && self.protocol.is_some()
            && self.formats.len() > 0
    }
}

/// A step that returned `r` and left the scanner at `after` did what the
/// model's `out` says: `None` is a fatal error.
pub open spec fn stepped(r: bool, after: ScanModel, out: Option<ScanModel>) -> bool {
    match out {
        Some(t) => r && after == t,
        None => !r,
    }
}

pub open spec fn drafts_view(v: Seq<MediaDraft>) -> Seq<MediaModel> {
    v.map_values(|d: MediaDraft| d@)
}

/// The scanner's state; its view is the state of the model.
pub struct Scanner {
    pub phase: Phase,
    pub section: Section,
    pub op: Operator,
    pub token: Option<usize>,
    pub slots: Vec<Span>,
    pub version: Option<Span>,
    pub origin: Option<OriginSpans>,
    pub session_name: Option<Span>,
    pub connection: Option<ConnSpans>,
    pub start_time: u64,
    pub end_time: u64,
    pub attributes: Vec<Span>,
    pub medias: Vec<MediaDraft>,
    pub media: MediaDraft,
}

impl View for Scanner {
    type V = ScanModel;

    open spec fn view(&self) -> ScanModel {
        ScanModel {
            phase: self.phase,
            section: self.section,
            op: self.op,
            token: self.token,
            slots: self.slots@,
            version: self.version,
            origin: self.origin,
            session_name: self.session_name,
            connection: self.connection,
            start_time: self.start_time,
            end_time: self.end_time,
            attributes: self.attributes@,
            medias: drafts_view(self.medias@),
            media: self.media@,
        }
    }
}

/// The operator named by a leading letter.
pub fn operator_for(b: u8) -> (r: Operator)
    ensures
        r == operator_of(b),
{
    if b == 118u8 {  // 'v'
        Operator::V
    } else if b == 111u8 {  // 'o'
        Operator::O
    } else if b == 115u8 {  // 's'
        Operator::S
    } else if b == 105u8 {  // 'i'
        Operator::I
    } else if b == 117u8 {  // 'u'
        Operator::U
    } else if b == 101u8 {  // 'e'
        Operator::E
    } else if b == 112u8 {  // 'p'
        Operator::P
    } else if b == 99u8 {  // 'c'
        Operator::C
    } else if b == 98u8 {  // 'b'
        Operator::B
    } else if b == 116u8 {  // 't'
        Operator::T
    } else if b == 114u8 {  // 'r'
        Operator::R
    } else if b == 122u8 {  // 'z'
        Operator::Z
    } else if b == 107u8 {  // 'k'
        Operator::K
    } else if b == 97u8 {  // 'a'
        Operator::A
    } else if b == 109u8 {  // 'm'
        Operator::M
    } else {
        Operator::Unknown
    }
}

/// Whether a line led by `next` may follow one led by `cur` in `section`.
pub fn accepts_next(section: Section, cur: Operator, next: Operator) -> (r: bool)
    ensures
        r == accepts(section, cur, next),
{
    let both_attributes = matches!(cur, Operator::A) && matches!(next, Operator::A);
    match section {
        Section::Main => cur.get_order() < next.get_order() || both_attributes,
        Section::Time => next.get_order() >= Operator::T.get_order(),
        Section::Media => {
            let allowed = match next {
                Operator::I | Operator::C | Operator::B | Operator::K | Operator::A | Operator::M => true,
                _ => false,
            };
            (cur.get_order() < next.get_order() && allowed) || both_attributes
        },
    }
}

impl Scanner {
    pub fn new() -> (r: Scanner)
        ensures
            r@ == initial_state(),
    {
        let r = Scanner {
            phase: Phase::Begin,
            section: Section::Main,
            op: Operator::Unknown,
            token: None,
            slots: Vec::new(),
            version: None,
            origin: None,
            session_name: None,
            connection: None,
            start_time: 0,
            end_time: 0,
            attributes: Vec::new(),
            medias: Vec::new(),
            media: MediaDraft::new(),
        };
        assert(drafts_view(r.medias@) =~= Seq::<MediaModel>::empty());
        r
    }

    /// Appends the media block in progress to the medias if it is complete,
    /// and starts an empty one.
    pub fn close_media(&mut self)
        ensures
            final(self)@ == (ScanModel { medias: closed_medias(old(self)@), media: empty_media(), ..old(self)@ }),
    {
        let mut done = MediaDraft::new();
        core::mem::swap(&mut self.media, &mut done);
        if matches!(self.section, Section::Media) && done.is_complete() {
            let ghost before = self.medias@;
            self.medias.push(done);
            assert(drafts_view(self.medias@) =~= drafts_view(before).push(done@));
        }
    }

    /// A space in a media header.
    fn header_token(&mut self, input: &[u8], i: usize) -> (r: bool)
        requires
            state_within(old(self)@, i as int),
            i < input@.len(),
        ensures
            stepped(r, final(self)@, header_token(old(self)@, input@, i as int)),
    {
        if let Some(t) = self.token {
            let sp = Span { start: t, end: i };
            if self.media.media_type.is_none() {
                self.media.media_type = Some(sp);
            } else if self.media.port.is_none() {
                match decode_port(input, t, i) {
                    Some(p) => {
                        self.media.port = Some(p);
                    },
                    None => {
                        return false;
                    },
                }
            } else if self.media.protocol.is_none() {
                self.media.protocol = Some(sp);
            } else {
                self.media.formats.push(sp);
            }
            self.token = None;
        }
        true
    }

    /// A space in a field of `n` leading positional tokens.
    fn fill_slot(&mut self, i: usize, n: usize) -> (r: bool)
        ensures
            stepped(r, final(self)@, fill_slot(old(self)@, i as int, n as nat)),
    {
        if self.slots.len() < n {
            if let Some(t) = self.token {
                self.slots.push(Span { start: t, end: i });
            }
            self.token = None;
            true
        } else {
            false
        }
    }

    /// A space while reading a value.
    fn close_token(&mut self, input: &[u8], i: usize) -> (r: bool)
        requires
            state_within(old(self)@, i as int),
            i < input@.len(),
        ensures
            stepped(r, final(self)@, close_token(old(self)@, input@, i as int)),
    {
        match self.op {
            Operator::V | Operator::S => false,
            Operator::O => self.fill_slot(i, 5),
            Operator::C => self.fill_slot(i, 2),
            Operator::T => {
                if let Some(t) = self.token {
                    let mut last = Vec::new();
                    last.push(Span { start: t, end: i });
                    assert(last@ =~= seq![token_span(old(self)@, i as int)]);
                    self.slots = last;
                }
                self.token = None;
                true
            },
            Operator::A => true,
            Operator::Unknown => self.header_token(input, i),
            _ => {
                self.token = None;
                true
            },
        }
    }

    /// The end of a line that was being read.
    fn end_line(&mut self, input: &[u8], i: usize) -> (r: bool)
        requires
            state_within(old(self)@, i as int),
            i < input@.len(),
        ensures
            stepped(r, final(self)@, end_line(old(self)@, input@, i as int)),
    {
        match self.op {
            Operator::V => {
                if let Some(t) = self.token {
                    self.version = Some(Span { start: t, end: i });
                }
                true
            },
            Operator::S => {
                if let Some(t) = self.token {
                    self.session_name = Some(Span { start: t, end: i });
                }
                true
            },
            Operator::O => {
                match self.token {
                    Some(t) if self.slots.len() == 5 => {
                        self.origin = Some(OriginSpans {
                            user_id: self.slots[0],
                            session_id: self.slots[1],
                            session_version: self.slots[2],
                            network_type: self.slots[3],
                            address_type: self.slots[4],
                            unicast_address: Span { start: t, end: i },
                        });
                        true
                    },
                    _ => false,
                }
            },
            Operator::C => {
                match self.token {
                    Some(t) if self.slots.len() == 2 => {
                        let c = ConnSpans {
                            network_type: self.slots[0],
                            address_type: self.slots[1],
                            connection_address: Span { start: t, end: i },
                        };
                        if matches!(self.section, Section::Media) {
                            self.media.connection = Some(c);
                        } else {
                            self.connection = Some(c);
                        }
                        true
                    },
                    _ => false,
                }
            },
            Operator::T => {
                if self.slots.len() != 1 {
                    return false;
                }
                match self.token {
                    Some(t) => {
                        let first = self.slots[0];
                        let start = decode_time(input, first.start, first.end, 0);
                        let end = decode_time(input, t, i, u64::MAX);
                        match (start, end) {
                            (Some(a), Some(b)) => {
                                self.start_time = a;
                                self.end_time = b;
                                true
                            },
                            _ => false,
                        }
                    },
                    None => false,
                }
            },
            Operator::A => {
                if let Some(t) = self.token {
                    if matches!(self.section, Section::Media) {
                        self.media.attributes.push(Span { start: t, end: i });
                    } else {
                        self.attributes.push(Span { start: t, end: i });
                    }
                }
                true
            },
            Operator::Unknown => {
                if let Some(t) = self.token {
                    self.media.formats.push(Span { start: t, end: i });
                }
                true
            },
            _ => true,
        }
    }

    /// Reads the byte at index `i`.
    pub fn step(&mut self, input: &[u8], i: usize) -> (r: bool)
        requires
            state_within(old(self)@, i as int),
            i < input@.len(),
        ensures
            stepped(r, final(self)@, step(old(self)@, input@, i as int)),
    {
        let b = input[i];
        let eol = b == CR || b == LF;
        match self.phase {
            Phase::Begin => {
                if !eol {
                    let next = operator_for(b);
                    if accepts_next(self.section, self.op, next) {
                        self.op = next;
                        self.phase = Phase::Assign;
                        self.slots = Vec::new();
                    } else {
                        self.phase = Phase::SkippingError;
                    }
                }
                true
            },
            Phase::Assign => {
                if b == EQUALS {
                    self.enter_value();
                } else if eol {
                    self.phase = Phase::Begin;
                } else {
                    self.phase = Phase::SkippingError;
                }
                true
            },
            Phase::Reading => {
                if eol {
                    if self.end_line(input, i) {
                        self.phase = Phase::Begin;
                        self.token = None;
                        true
                    } else {
                        false
                    }
                } else if b == SPACE {
                    self.close_token(input, i)
                } else {
                    if self.token.is_none() {
                        self.token = Some(i);
                    }
                    true
                }
            },
            Phase::SkippingError => {
                if eol {
                    self.phase = Phase::Begin;
                }
                true
            },
        }
    }

    fn enter_value(&mut self)
        ensures
            final(self)@ == enter_value(old(self)@),
    {
        match self.op {
            Operator::T | Operator::R => {
                self.section = Section::Time;
            },
            Operator::M => {
                self.close_media();
                self.op = Operator::Unknown;
                self.section = Section::Media;
            },
            _ => {},
        }
        self.phase = Phase::Reading;
    }
}

} // verus!
