//! The scanner's state and the byte-by-byte state machine that defines parsing.
use vstd::prelude::*;
use crate::number::{port_text, time_text};

verus! {

/// The field kind named by the leading letter of a line; `Unknown` for any
/// other letter, and for the header of a media block.
#[derive(Clone, Copy)]
pub enum Operator {
    Unknown,
    V,
    O,
    S,
    I,
    U,
    E,
    P,
    C,
    B,
    T,
    R,
    Z,
    K,
    A,
    M,
}

impl Operator {
    pub open spec fn order(self) -> int {
        match self {
            Operator::Unknown => 0,
            Operator::V => 1,
            Operator::O => 2,
            Operator::S => 3,
            Operator::I => 4,
            Operator::U => 5,
            Operator::E => 6,
            Operator::P => 7,
            Operator::C => 8,
            Operator::B => 9,
            Operator::T => 10,
            Operator::R => 11,
            Operator::Z => 12,
            Operator::K => 13,
            Operator::A => 14,
            Operator::M => 15,
        }
    }

    pub fn get_order(&self) -> (r: i32)
        ensures
            r as int == self.order(),
    {
        match self {
            Operator::Unknown => 0,
            Operator::V => 1,
            Operator::O => 2,
            Operator::S => 3,
            Operator::I => 4,
            Operator::U => 5,
            Operator::E => 6,
            Operator::P => 7,
            Operator::C => 8,
            Operator::B => 9,
            Operator::T => 10,
            Operator::R => 11,
            Operator::Z => 12,
            Operator::K => 13,
            Operator::A => 14,
            Operator::M => 15,
        }
    }
}


/// Which logical part of the document is being read.
#[derive(Clone, Copy)]
pub enum Section {
    Main,
    Time,
    Media,
}

/// Where the scanner stands within a line.
#[derive(Clone, Copy)]
pub enum Phase {
    Begin,
    Assign,
    Reading,
    SkippingError,
}

/// A span `input[start..end]` of the input.
#[derive(Clone, Copy)]
pub struct Span {
    pub start: usize,
    pub end: usize,
}

#[derive(Clone, Copy)]
pub struct OriginSpans {
    pub user_id: Span,
    pub session_id: Span,
    pub session_version: Span,
    pub network_type: Span,
    pub address_type: Span,
    pub unicast_address: Span,
}

#[derive(Clone, Copy)]
pub struct ConnSpans {
    pub network_type: Span,
    pub address_type: Span,
    pub connection_address: Span,
}

/// A media block as read so far.
pub struct MediaModel {
    pub media_type: Option<Span>,
    pub port: Option<(u16, i32)>,
    pub protocol: Option<Span>,
    pub formats: Seq<Span>,
    pub connection: Option<ConnSpans>,
    pub attributes: Seq<Span>,
}

/// Everything the scanner knows after some prefix of the input.
pub struct ScanModel {
    pub phase: Phase,
    pub section: Section,
    pub op: Operator,
    /// Start of the token being read, if one is open.
    pub token: Option<usize>,
    /// Tokens of the current line already assigned to its positional fields.
    pub slots: Seq<Span>,
    pub version: Option<Span>,
    pub origin: Option<OriginSpans>,
    pub session_name: Option<Span>,
    pub connection: Option<ConnSpans>,
    pub start_time: u64,
    pub end_time: u64,
    pub attributes: Seq<Span>,
    pub medias: Seq<MediaModel>,
    pub media: MediaModel,
}

/// The parsed document, over spans of the input.
pub struct SdpModel {
    pub version: Span,
    pub origin: OriginSpans,
    pub session_name: Span,
    pub connection: Option<ConnSpans>,
    pub start_time: u64,
    pub end_time: u64,
    pub attributes: Seq<Span>,
    pub medias: Seq<MediaModel>,
}

pub const CR: u8 = 13;

pub const LF: u8 = 10;

pub const SPACE: u8 = 32;

pub const EQUALS: u8 = 61;

pub open spec fn operator_of(b: u8) -> Operator {
    if b == 118u8 { Operator::V }  // 'v'
    else if b == 111u8 { Operator::O }  // 'o'
    else if b == 115u8 { Operator::S }  // 's'
    else if b == 105u8 { Operator::I }  // 'i'
    else if b == 117u8 { Operator::U }  // 'u'
    else if b == 101u8 { Operator::E }  // 'e'
    else if b == 112u8 { Operator::P }  // 'p'
    else if b == 99u8 { Operator::C }  // 'c'
    else if b == 98u8 { Operator::B }  // 'b'
    else if b == 116u8 { Operator::T }  // 't'
    else if b == 114u8 { Operator::R }  // 'r'
    else if b == 122u8 { Operator::Z }  // 'z'
    else if b == 107u8 { Operator::K }  // 'k'
    else if b == 97u8 { Operator::A }  // 'a'
    else if b == 109u8 { Operator::M }  // 'm'
    else { Operator::Unknown }
}

/// Operators that may open a line inside a media block.
pub open spec fn media_field(op: Operator) -> bool {
    op is I || op is C || op is B || op is K || op is A || op is M
}

/// Whether a line led by `next` is accepted after a line led by `cur`.
pub open spec fn accepts(section: Section, cur: Operator, next: Operator) -> bool {
    match section {
        Section::Main => cur.order() < next.order() || (cur is A && next is A),
        Section::Time => next.order() >= Operator::T.order(),
        Section::Media => (cur.order() < next.order() && media_field(next)) || (cur is A && next is A),
    }
}

pub open spec fn is_eol(b: u8) -> bool {
    b == CR || b == LF
}

pub open spec fn empty_media() -> MediaModel {
    MediaModel {
        media_type: None,
        port: None,
        protocol: None,
        formats: Seq::empty(),
        connection: None,
        attributes: Seq::empty(),
    }
}

/// A media block that has its type, port, protocol and at least one format.
pub open spec fn media_complete(m: MediaModel) -> bool {
    m.media_type is Some && m.port is Some && m.protocol is Some && m.formats.len() > 0
}

pub open spec fn initial_state() -> ScanModel {
    ScanModel {
        phase: Phase::Begin,
        section: Section::Main,
        op: Operator::Unknown,
        token: None,
        slots: Seq::empty(),
        version: None,
        origin: None,
        session_name: None,
        connection: None,
        start_time: 0,
        end_time: 0,
        attributes: Seq::empty(),
        medias: Seq::empty(),
        media: empty_media(),
    }
}

/// The medias after closing the block in progress, if there is a complete one.
pub open spec fn closed_medias(s: ScanModel) -> Seq<MediaModel> {
    if s.section is Media && media_complete(s.media) {
        s.medias.push(s.media)
    } else {
        s.medias
    }
}

/// The `=` after an accepted leading letter: start reading the value.
pub open spec fn enter_value(s: ScanModel) -> ScanModel {
    match s.op {
        Operator::T | Operator::R => ScanModel { phase: Phase::Reading, section: Section::Time, ..s },
        Operator::M => ScanModel {
            phase: Phase::Reading,
            section: Section::Media,
            op: Operator::Unknown,
            medias: closed_medias(s),
            media: empty_media(),
            ..s
        },
        _ => ScanModel { phase: Phase::Reading, ..s },
    }
}

/// The token open at `s.token`, closed at `i`.
pub open spec fn token_span(s: ScanModel, i: int) -> Span {
    Span { start: s.token->0, end: i as usize }
}

pub open spec fn span_text(input: Seq<u8>, sp: Span) -> Seq<u8> {
    input.subrange(sp.start as int, sp.end as int)
}

/// A positional token of a media header, closed by a space.
pub open spec fn header_token(s: ScanModel, input: Seq<u8>, i: int) -> Option<ScanModel> {
    let m = s.media;
    let sp = token_span(s, i);
    if s.token is None {
        Some(s)
    } else if m.media_type is None {
        Some(ScanModel { token: None, media: MediaModel { media_type: Some(sp), ..m }, ..s })
    } else if m.port is None {
        match port_text(span_text(input, sp)) {
            Some(p) => Some(ScanModel { token: None, media: MediaModel { port: Some(p), ..m }, ..s }),
            None => None,
        }
    } else if m.protocol is None {
        Some(ScanModel { token: None, media: MediaModel { protocol: Some(sp), ..m }, ..s })
    } else {
        Some(ScanModel { token: None, media: MediaModel { formats: m.formats.push(sp), ..m }, ..s })
    }
}

/// The slots after a positional token closes, `None` if the line already has
/// `n` of them.
pub open spec fn fill_slot(s: ScanModel, i: int, n: nat) -> Option<ScanModel> {
    if s.slots.len() < n {
        let slots = if s.token is Some { s.slots.push(token_span(s, i)) } else { s.slots };
        Some(ScanModel { token: None, slots, ..s })
    } else {
        None
    }
}

/// A space while reading a value, at index `i`. `None` is a fatal error.
pub open spec fn close_token(s: ScanModel, input: Seq<u8>, i: int) -> Option<ScanModel> {
    match s.op {
        Operator::V | Operator::S => None,
        Operator::O => fill_slot(s, i, 5),
        Operator::C => fill_slot(s, i, 2),
        Operator::T => Some(ScanModel {
            token: None,
            slots: if s.token is Some { seq![token_span(s, i)] } else { s.slots },
            ..s
        }),
        Operator::A => Some(s),
        Operator::Unknown => header_token(s, input, i),
        _ => Some(ScanModel { token: None, ..s }),
    }
}

/// The end of a line that was being read, at index `i`. `None` is a fatal error.
pub open spec fn end_line(s: ScanModel, input: Seq<u8>, i: int) -> Option<ScanModel> {
    let sp = token_span(s, i);
    let has = s.token is Some;
    let m = s.media;
    match s.op {
        Operator::V => Some(ScanModel { version: if has { Some(sp) } else { s.version }, ..s }),
        Operator::S => Some(ScanModel { session_name: if has { Some(sp) } else { s.session_name }, ..s }),
        Operator::O => if s.slots.len() == 5 && has {
            Some(ScanModel {
                origin: Some(OriginSpans {
                    user_id: s.slots[0],
                    session_id: s.slots[1],
                    session_version: s.slots[2],
                    network_type: s.slots[3],
                    address_type: s.slots[4],
                    unicast_address: sp,
                }),
                ..s
            })
        } else {
            None
        },
        Operator::C => if s.slots.len() == 2 && has {
            let c = ConnSpans { network_type: s.slots[0], address_type: s.slots[1], connection_address: sp };
            if s.section is Media {
                Some(ScanModel { media: MediaModel { connection: Some(c), ..m }, ..s })
            } else {
                Some(ScanModel { connection: Some(c), ..s })
            }
        } else {
            None
        },
        Operator::T => if s.slots.len() == 1 && has {
            match (time_text(span_text(input, s.slots[0]), 0), time_text(span_text(input, sp), u64::MAX)) {
                (Some(a), Some(b)) => Some(ScanModel { start_time: a, end_time: b, ..s }),
                _ => None,
            }
        } else {
            None
        },
        Operator::A => if has {
            if s.section is Media {
                Some(ScanModel { media: MediaModel { attributes: m.attributes.push(sp), ..m }, ..s })
            } else {
                Some(ScanModel { attributes: s.attributes.push(sp), ..s })
            }
        } else {
            Some(s)
        },
        Operator::Unknown => if has {
            Some(ScanModel { media: MediaModel { formats: m.formats.push(sp), ..m }, ..s })
        } else {
            Some(s)
        },
        _ => Some(s),
    }
}

/// One step of the scanner, on the byte at index `i`. `None` is a fatal error.
pub open spec fn step(s: ScanModel, input: Seq<u8>, i: int) -> Option<ScanModel> {
    let b = input[i];
    match s.phase {
        Phase::Begin => if is_eol(b) {
            Some(s)
        } else if accepts(s.section, s.op, operator_of(b)) {
            Some(ScanModel { phase: Phase::Assign, op: operator_of(b), slots: Seq::empty(), ..s })
        } else {
            Some(ScanModel { phase: Phase::SkippingError, ..s })
        },
        Phase::Assign => if b == EQUALS {
            Some(enter_value(s))
        } else if is_eol(b) {
            Some(ScanModel { phase: Phase::Begin, ..s })
        } else {
            Some(ScanModel { phase: Phase::SkippingError, ..s })
        },
        Phase::Reading => if is_eol(b) {
            match end_line(s, input, i) {
                Some(t) => Some(ScanModel { phase: Phase::Begin, token: None, ..t }),
                None => None,
            }
        } else if b == SPACE {
            close_token(s, input, i)
        } else if s.token is None {
            Some(ScanModel { token: Some(i as usize), ..s })
        } else {
            Some(s)
        },
        Phase::SkippingError => if is_eol(b) {
            Some(ScanModel { phase: Phase::Begin, ..s })
        } else {
            Some(s)
        },
    }
}

/// The scanner's state after the first `n` bytes, `None` once a fatal error
/// has occurred.
pub open spec fn scan(input: Seq<u8>, n: nat) -> Option<ScanModel>
    decreases n,
{
    if n == 0 {
        Some(initial_state())
    } else {
        match scan(input, (n - 1) as nat) {
            Some(s) => step(s, input, n - 1),
            None => None,
        }
    }
}

/// The document, from the state at the end of the input: it needs a
/// version, an origin and a session name.
pub open spec fn finish(s: ScanModel) -> Option<SdpModel> {
    match (s.version, s.origin, s.session_name) {
        (Some(v), Some(o), Some(n)) => Some(SdpModel {
            version: v,
            origin: o,
            session_name: n,
            connection: s.connection,
            start_time: s.start_time,
            end_time: s.end_time,
            attributes: s.attributes,
            medias: closed_medias(s),
        }),
        _ => None,
    }
}

/// What parsing `input` gives.
pub open spec fn parse_model(input: Seq<u8>) -> Option<SdpModel> {
    match scan(input, input.len()) {
        Some(s) => finish(s),
        None => None,
    }
}

pub open spec fn span_within(sp: Span, n: int) -> bool {
    sp.start <= sp.end && sp.end <= n
}

pub open spec fn spans_within(q: Seq<Span>, n: int) -> bool {
    forall|k: int| 0 <= k < q.len() ==> span_within(#[trigger] q[k], n)
}

pub open spec fn opt_within(o: Option<Span>, n: int) -> bool {
    o matches Some(sp) ==> span_within(sp, n)
}

pub open spec fn conn_within(c: ConnSpans, n: int) -> bool {
    span_within(c.network_type, n) && span_within(c.address_type, n)
        && span_within(c.connection_address, n)
}

pub open spec fn origin_within(o: OriginSpans, n: int) -> bool {
    span_within(o.user_id, n) && span_within(o.session_id, n) && span_within(o.session_version, n)
        && span_within(o.network_type, n) && span_within(o.address_type, n)
        && span_within(o.unicast_address, n)
}

pub open spec fn media_within(m: MediaModel, n: int) -> bool {
    opt_within(m.media_type, n) && opt_within(m.protocol, n) && spans_within(m.formats, n)
        && (m.connection matches Some(c) ==> conn_within(c, n)) && spans_within(m.attributes, n)
}

pub open spec fn medias_within(q: Seq<MediaModel>, n: int) -> bool {
    forall|k: int| 0 <= k < q.len() ==> media_within(#[trigger] q[k], n)
}

pub open spec fn medias_complete(q: Seq<MediaModel>) -> bool {
    forall|k: int| 0 <= k < q.len() ==> media_complete(#[trigger] q[k])
}

/// Every span the state holds lies within the first `n` bytes, and so does
/// the start of an open token; every finished media block is complete.
pub open spec fn state_within(s: ScanModel, n: int) -> bool {
    medias_complete(s.medias) && (s.token matches Some(t) ==> t < n) && spans_within(s.slots, n) && opt_within(s.version, n)
        && (s.origin matches Some(o) ==> origin_within(o, n)) && opt_within(s.session_name, n)
        && (s.connection matches Some(c) ==> conn_within(c, n)) && spans_within(s.attributes, n)
        && medias_within(s.medias, n) && media_within(s.media, n)
}

/// Every span of the document lies within an input of length `n`, and every
/// media block is complete.
pub open spec fn sdp_within(d: SdpModel, n: int) -> bool {
    medias_complete(d.medias) && span_within(d.version, n) && origin_within(d.origin, n) && span_within(d.session_name, n)
        && (d.connection matches Some(c) ==> conn_within(c, n)) && spans_within(d.attributes, n)
        && medias_within(d.medias, n)
}

proof fn lemma_media_within_grows(m: MediaModel, n: int, p: int)
    requires
        media_within(m, n),
        n <= p,
    ensures
        media_within(m, p),
{
    assert(spans_within(m.formats, p));
    assert(spans_within(m.attributes, p));
}

proof fn lemma_state_within_grows(s: ScanModel, n: int, p: int)
    requires
        state_within(s, n),
        n <= p,
    ensures
        state_within(s, p),
{
    lemma_media_within_grows(s.media, n, p);
    assert(spans_within(s.slots, p));
    assert(spans_within(s.attributes, p));
    assert forall|k: int| 0 <= k < s.medias.len() implies media_within(#[trigger] s.medias[k], p) by {
        lemma_media_within_grows(s.medias[k], n, p);
    }
}

proof fn lemma_push_within(q: Seq<Span>, sp: Span, n: int)
    requires
        spans_within(q, n),
        span_within(sp, n),
    ensures
        spans_within(q.push(sp), n),
{
    assert forall|k: int| 0 <= k < q.push(sp).len() implies span_within(#[trigger] q.push(sp)[k], n) by {
        if k < q.len() {
            assert(q.push(sp)[k] == q[k]);
        }
    }
}

pub proof fn lemma_step_within(s: ScanModel, input: Seq<u8>, i: int)
    requires
        state_within(s, i),
        0 <= i < input.len() <= usize::MAX,
    ensures
        step(s, input, i) matches Some(t) ==> state_within(t, i + 1),
{
    lemma_state_within_grows(s, i, i + 1);
    let n = i + 1;
    if s.token is Some {
        let sp = token_span(s, i);
        assert(span_within(sp, n));
        lemma_push_within(s.slots, sp, n);
        lemma_push_within(s.attributes, sp, n);
        lemma_push_within(s.media.formats, sp, n);
        lemma_push_within(s.media.attributes, sp, n);
        assert(spans_within(seq![sp], n));
    }
    assert(spans_within(Seq::<Span>::empty(), n));
    assert(media_within(empty_media(), n));
    if s.section is Media && media_complete(s.media) {
        assert forall|k: int| 0 <= k < s.medias.push(s.media).len() implies media_within(
            #[trigger] s.medias.push(s.media)[k],
            n,
        ) by {
            if k < s.medias.len() {
                assert(s.medias.push(s.media)[k] == s.medias[k]);
            }
        }
        assert(medias_complete(s.medias.push(s.media))) by {
            assert forall|k: int| 0 <= k < s.medias.push(s.media).len() implies media_complete(
                #[trigger] s.medias.push(s.media)[k],
            ) by {
                if k < s.medias.len() {
                    assert(s.medias.push(s.media)[k] == s.medias[k]);
                }
            }
        }
    }
    if s.slots.len() > 0 {
        assert(span_within(s.slots[0], n));
    }
    if s.slots.len() > 1 {
        assert(span_within(s.slots[1], n));
    }
    if s.slots.len() == 5 {
        assert(span_within(s.slots[2], n));
        assert(span_within(s.slots[3], n));
        assert(span_within(s.slots[4], n));
    }
}

/// The bounds hold of every state the scanner reaches.
pub proof fn lemma_scan_within(input: Seq<u8>, n: nat)
    requires
        n <= input.len() <= usize::MAX,
    ensures
        scan(input, n) matches Some(s) ==> state_within(s, n as int),
    decreases n,
{
    if n == 0 {
        assert(spans_within(Seq::<Span>::empty(), 0));
        assert(medias_within(Seq::<MediaModel>::empty(), 0));
        assert(medias_complete(Seq::<MediaModel>::empty()));
    } else {
        lemma_scan_within(input, (n - 1) as nat);
        if let Some(s) = scan(input, (n - 1) as nat) {
            lemma_step_within(s, input, n - 1);
        }
    }
}

/// Once a fatal error has occurred, the scan stays failed.
pub proof fn lemma_scan_stays_failed(input: Seq<u8>, n: nat, p: nat)
    requires
        scan(input, n) is None,
        n <= p,
    ensures
        scan(input, p) is None,
    decreases p - n,
{
    if n < p {
        lemma_scan_stays_failed(input, n + 1, p);
    }
}

/// The document is within the input, and its media blocks are complete.
pub proof fn lemma_parse_within(input: Seq<u8>)
    requires
        input.len() <= usize::MAX,
    ensures
        parse_model(input) matches Some(d) ==> sdp_within(d, input.len() as int),
{
    lemma_scan_within(input, input.len());
    if let Some(s) = scan(input, input.len()) {
        assert(media_within(empty_media(), input.len() as int));
        if s.section is Media && media_complete(s.media) {
            assert(medias_complete(s.medias.push(s.media))) by {
                assert forall|k: int| 0 <= k < s.medias.push(s.media).len() implies media_complete(
                    #[trigger] s.medias.push(s.media)[k],
                ) by {
                    if k < s.medias.len() {
                        assert(s.medias.push(s.media)[k] == s.medias[k]);
                    }
                }
            }
            assert(medias_within(s.medias.push(s.media), input.len() as int)) by {
                assert forall|k: int| 0 <= k < s.medias.push(s.media).len() implies media_within(
                    #[trigger] s.medias.push(s.media)[k],
                    input.len() as int,
                ) by {
                    if k < s.medias.len() {
                        assert(s.medias.push(s.media)[k] == s.medias[k]);
                    }
                }
            }
        }
    }
}

pub open spec fn is_word_byte(b: u8) -> bool {
    !is_eol(b) && b != SPACE
}

/// `sp` is one or more bytes of `input`, none a line break or a space.
pub open spec fn word_span(input: Seq<u8>, sp: Span) -> bool {
    sp.start < sp.end && forall|j: int| sp.start <= j < sp.end ==> is_word_byte(#[trigger] input[j])
}

/// `sp` is one or more bytes of `input`, none a line break, the first not a
/// space.
pub open spec fn line_span(input: Seq<u8>, sp: Span) -> bool {
    &&& sp.start < sp.end
    &&& is_word_byte(input[sp.start as int])
    &&& forall|j: int| sp.start <= j < sp.end ==> !is_eol(#[trigger] input[j])
}

pub open spec fn word_spans(input: Seq<u8>, q: Seq<Span>) -> bool {
    forall|k: int| 0 <= k < q.len() ==> word_span(input, #[trigger] q[k])
}

pub open spec fn line_spans(input: Seq<u8>, q: Seq<Span>) -> bool {
    forall|k: int| 0 <= k < q.len() ==> line_span(input, #[trigger] q[k])
}

pub open spec fn opt_word(input: Seq<u8>, o: Option<Span>) -> bool {
    o matches Some(sp) ==> word_span(input, sp)
}

pub open spec fn conn_words(input: Seq<u8>, c: Option<ConnSpans>) -> bool {
    c matches Some(c) ==> word_span(input, c.network_type) && word_span(input, c.address_type)
        && word_span(input, c.connection_address)
}

pub open spec fn origin_words(input: Seq<u8>, o: OriginSpans) -> bool {
    word_span(input, o.user_id) && word_span(input, o.session_id) && word_span(input, o.session_version)
        && word_span(input, o.network_type) && word_span(input, o.address_type)
        && word_span(input, o.unicast_address)
}

/// The fields of a media block are words, and its attributes line texts.
pub open spec fn media_clean(input: Seq<u8>, m: MediaModel) -> bool {
    opt_word(input, m.media_type) && opt_word(input, m.protocol) && word_spans(input, m.formats)
        && conn_words(input, m.connection) && line_spans(input, m.attributes)
}

pub open spec fn medias_clean(input: Seq<u8>, q: Seq<MediaModel>) -> bool {
    forall|k: int| 0 <= k < q.len() ==> media_clean(input, #[trigger] q[k])
}

/// An open token started at a word byte and, up to `n`, holds no line break,
/// and no space unless it is an attribute's; every field span is a word and
/// every attribute span a line text.
pub open spec fn state_clean(input: Seq<u8>, s: ScanModel, n: int) -> bool {
    &&& (s.token matches Some(t) ==> {
        &&& s.phase is Reading
        &&& is_word_byte(input[t as int])
        &&& forall|j: int| t <= j < n ==> !is_eol(#[trigger] input[j])
        &&& !(s.op is A) ==> forall|j: int| t <= j < n ==> is_word_byte(#[trigger] input[j])
    })
    &&& word_spans(input, s.slots)
    &&& opt_word(input, s.version)
    &&& (s.origin matches Some(o) ==> origin_words(input, o))
    &&& opt_word(input, s.session_name)
    &&& conn_words(input, s.connection)
    &&& line_spans(input, s.attributes)
    &&& medias_clean(input, s.medias)
    &&& media_clean(input, s.media)
}

/// Every field of the document is a word, and every attribute a line text.
pub open spec fn sdp_clean(input: Seq<u8>, d: SdpModel) -> bool {
    word_span(input, d.version) && origin_words(input, d.origin) && word_span(input, d.session_name)
        && conn_words(input, d.connection) && line_spans(input, d.attributes)
        && medias_clean(input, d.medias)
}

proof fn lemma_push_word(input: Seq<u8>, q: Seq<Span>, sp: Span)
    requires
        word_spans(input, q),
        word_span(input, sp),
    ensures
        word_spans(input, q.push(sp)),
{
    assert forall|k: int| 0 <= k < q.push(sp).len() implies word_span(input, #[trigger] q.push(sp)[k]) by {
        if k < q.len() {
            assert(q.push(sp)[k] == q[k]);
        }
    }
}

proof fn lemma_push_line(input: Seq<u8>, q: Seq<Span>, sp: Span)
    requires
        line_spans(input, q),
        line_span(input, sp),
    ensures
        line_spans(input, q.push(sp)),
{
    assert forall|k: int| 0 <= k < q.push(sp).len() implies line_span(input, #[trigger] q.push(sp)[k]) by {
        if k < q.len() {
            assert(q.push(sp)[k] == q[k]);
        }
    }
}

pub proof fn lemma_step_clean(s: ScanModel, input: Seq<u8>, i: int)
    requires
        state_clean(input, s, i),
        state_within(s, i),
        0 <= i < input.len() <= usize::MAX,
    ensures
        step(s, input, i) matches Some(t) ==> state_clean(input, t, i + 1),
{
    assert(word_spans(input, Seq::<Span>::empty()));
    assert(line_spans(input, Seq::<Span>::empty()));
    assert(media_clean(input, empty_media()));
    if let Some(t) = s.token {
        let sp = token_span(s, i);
        assert(sp.start == t && sp.end == i);
        if !(s.op is A) {
            assert(word_span(input, sp));
            lemma_push_word(input, s.slots, sp);
            lemma_push_word(input, s.media.formats, sp);
            assert(word_spans(input, seq![sp]));
        } else {
            assert(line_span(input, sp));
            lemma_push_line(input, s.attributes, sp);
            lemma_push_line(input, s.media.attributes, sp);
        }
    }
    if s.slots.len() > 0 {
        assert(word_span(input, s.slots[0]));
    }
    if s.slots.len() > 1 {
        assert(word_span(input, s.slots[1]));
    }
    if s.slots.len() == 5 {
        assert(word_span(input, s.slots[2]));
        assert(word_span(input, s.slots[3]));
        assert(word_span(input, s.slots[4]));
    }
    if s.section is Media && media_complete(s.media) {
        assert forall|k: int| 0 <= k < s.medias.push(s.media).len() implies media_clean(
            input,
            #[trigger] s.medias.push(s.media)[k],
        ) by {
            if k < s.medias.len() {
                assert(s.medias.push(s.media)[k] == s.medias[k]);
            }
        }
    }
}

/// The words hold of every state the scanner reaches.
pub proof fn lemma_scan_clean(input: Seq<u8>, n: nat)
    requires
        n <= input.len() <= usize::MAX,
    ensures
        scan(input, n) matches Some(s) ==> state_clean(input, s, n as int),
    decreases n,
{
    if n == 0 {
        assert(word_spans(input, Seq::<Span>::empty()));
        assert(line_spans(input, Seq::<Span>::empty()));
        assert(medias_clean(input, Seq::<MediaModel>::empty()));
        assert(media_clean(input, empty_media()));
    } else {
        lemma_scan_clean(input, (n - 1) as nat);
        lemma_scan_within(input, (n - 1) as nat);
        if let Some(s) = scan(input, (n - 1) as nat) {
            lemma_step_clean(s, input, n - 1);
        }
    }
}

/// Every field of the document is a word and every attribute a line text.
pub proof fn lemma_parse_clean(input: Seq<u8>)
    requires
        input.len() <= usize::MAX,
    ensures
        parse_model(input) matches Some(d) ==> sdp_clean(input, d),
{
    lemma_scan_clean(input, input.len());
    if let Some(s) = scan(input, input.len()) {
        if s.section is Media && media_complete(s.media) {
            assert forall|k: int| 0 <= k < s.medias.push(s.media).len() implies media_clean(
                input,
                #[trigger] s.medias.push(s.media)[k],
            ) by {
                if k < s.medias.len() {
                    assert(s.medias.push(s.media)[k] == s.medias[k]);
                }
            }
        }
    }
}

} // verus!
