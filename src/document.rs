//! The parsed document: views into the input buffer, and the parse itself.
use vstd::prelude::*;
use crate::model::{
    lemma_parse_within, lemma_scan_stays_failed, lemma_step_within, media_complete, media_within,
    medias_complete, medias_within, parse_model, scan, span_text, span_within, spans_within,
    state_within, ConnSpans, MediaModel, OriginSpans, SdpModel, Span,
};
use crate::scanner::{drafts_view, MediaDraft, Scanner};

verus! {

/// The originator and session identifier of an `o=` line.
pub struct Origin<'a> {
    pub user_id: &'a [u8],
    pub session_id: &'a [u8],
    pub session_version: &'a [u8],
    pub network_type: &'a [u8],
    pub address_type: &'a [u8],
    pub unicast_address: &'a [u8],
}

/// The connection data of a `c=` line.
pub struct ConnectionData<'a> {
    pub network_type: &'a [u8],
    pub address_type: &'a [u8],
    pub connection_address: &'a [u8],
}

/// A media description: an `m=` line and the lines of its block.
pub struct Media<'a> {
    pub media_type: &'a [u8],
    pub port: u16,
    pub number_of_ports: i32,
    pub protocol: &'a [u8],
    pub formats: Vec<&'a [u8]>,
    pub connection: Option<ConnectionData<'a>>,
    pub attributes: Vec<&'a [u8]>,
}

/// A session description.
pub struct Sdp<'a> {
    pub version: &'a [u8],
    pub origin: Origin<'a>,
    pub session_name: &'a [u8],
    pub connection: Option<ConnectionData<'a>>,
    pub session_start_time: u64,
    pub session_end_time: u64,
    pub attributes: Vec<&'a [u8]>,
    pub medias: Vec<Media<'a>>,
}

/// `v` holds the texts of the spans `q` of `input`, in order.
pub open spec fn texts_match(v: Seq<&[u8]>, q: Seq<Span>, input: Seq<u8>) -> bool {
    v.len() == q.len() && forall|k: int| 0 <= k < v.len() ==> #[trigger] v[k]@ == span_text(input, q[k])
}

pub open spec fn origin_matches(o: Origin, m: OriginSpans, input: Seq<u8>) -> bool {
    o.user_id@ == span_text(input, m.user_id) && o.session_id@ == span_text(input, m.session_id)
        && o.session_version@ == span_text(input, m.session_version)
        && o.network_type@ == span_text(input, m.network_type)
        && o.address_type@ == span_text(input, m.address_type)
        && o.unicast_address@ == span_text(input, m.unicast_address)
}

pub open spec fn connection_matches(c: Option<ConnectionData>, m: Option<ConnSpans>, input: Seq<u8>) -> bool {
    match (c, m) {
        (Some(c), Some(m)) => c.network_type@ == span_text(input, m.network_type)
            && c.address_type@ == span_text(input, m.address_type)
            && c.connection_address@ == span_text(input, m.connection_address),
        (None, None) => true,
        _ => false,
    }
}

pub open spec fn media_matches(x: Media, m: MediaModel, input: Seq<u8>) -> bool {
    let (port, count) = m.port->0;
    &&& x.media_type@ == span_text(input, m.media_type->0)
    &&& x.port == port
    &&& x.number_of_ports == count
    &&& x.protocol@ == span_text(input, m.protocol->0)
    &&& texts_match(x.formats@, m.formats, input)
    &&& connection_matches(x.connection, m.connection, input)
    &&& texts_match(x.attributes@, m.attributes, input)
}

pub open spec fn medias_match(v: Seq<Media>, q: Seq<MediaModel>, input: Seq<u8>) -> bool {
    v.len() == q.len() && forall|k: int| 0 <= k < v.len() ==> media_matches(#[trigger] v[k], q[k], input)
}

/// `x` is the document `m` over `input`: each field holds the text of its span.
pub open spec fn sdp_matches(x: Sdp, m: SdpModel, input: Seq<u8>) -> bool {
    &&& x.version@ == span_text(input, m.version)
    &&& origin_matches(x.origin, m.origin, input)
    &&& x.session_name@ == span_text(input, m.session_name)
    &&& connection_matches(x.connection, m.connection, input)
    &&& x.session_start_time == m.start_time
    &&& x.session_end_time == m.end_time
    &&& texts_match(x.attributes@, m.attributes, input)
    &&& medias_match(x.medias@, m.medias, input)
}

fn text<'a>(input: &'a [u8], sp: Span) -> (r: &'a [u8])
    requires
        span_within(sp, input@.len() as int),
    ensures
        r@ == span_text(input@, sp),
{
    &input[sp.start..sp.end]
}

fn texts<'a>(input: &'a [u8], q: &Vec<Span>) -> (r: Vec<&'a [u8]>)
    requires
        spans_within(q@, input@.len() as int),
    ensures
        texts_match(r@, q@, input@),
{
    let mut r: Vec<&'a [u8]> = Vec::new();
    let mut k: usize = 0;
    while k < q.len()
        invariant
            k <= q@.len(),
            spans_within(q@, input@.len() as int),
            texts_match(r@, q@.subrange(0, k as int), input@),
        decreases q@.len() - k,
    {
        r.push(text(input, q[k]));
        k = k + 1;
        assert(texts_match(r@, q@.subrange(0, k as int), input@)) by {
            assert forall|j: int| 0 <= j < r@.len() implies #[trigger] r@[j]@ == span_text(
                input@,
                q@.subrange(0, k as int)[j],
            ) by {
                if j < k - 1 {
                    assert(q@.subrange(0, k - 1)[j] == q@.subrange(0, k as int)[j]);
                }
            }
        }
    }
    assert(q@.subrange(0, k as int) =~= q@);
    r
}

fn connection_data<'a>(input: &'a [u8], c: Option<ConnSpans>) -> (r: Option<ConnectionData<'a>>)
    requires
        c matches Some(c) ==> span_within(c.network_type, input@.len() as int) && span_within(
            c.address_type,
            input@.len() as int,
        ) && span_within(c.connection_address, input@.len() as int),
    ensures
        connection_matches(r, c, input@),
{
    match c {
        Some(c) => Some(
            ConnectionData {
                network_type: text(input, c.network_type),
                address_type: text(input, c.address_type),
                connection_address: text(input, c.connection_address),
            },
        ),
        None => None,
    }
}

fn media<'a>(input: &'a [u8], d: &MediaDraft) -> (r: Media<'a>)
    requires
        media_complete(d@),
        media_within(d@, input@.len() as int),
    ensures
        media_matches(r, d@, input@),
{
    let (port, number_of_ports) = d.port.unwrap();
    Media {
        media_type: text(input, d.media_type.unwrap()),
        port,
        number_of_ports,
        protocol: text(input, d.protocol.unwrap()),
        formats: texts(input, &d.formats),
        connection: connection_data(input, d.connection),
        attributes: texts(input, &d.attributes),
    }
}

fn medias<'a>(input: &'a [u8], v: &Vec<MediaDraft>) -> (r: Vec<Media<'a>>)
    requires
        medias_complete(drafts_view(v@)),
        medias_within(drafts_view(v@), input@.len() as int),
    ensures
        medias_match(r@, drafts_view(v@), input@),
{
    let mut r: Vec<Media<'a>> = Vec::new();
    let mut k: usize = 0;
    while k < v.len()
        invariant
            k <= v@.len(),
            medias_complete(drafts_view(v@)),
            medias_within(drafts_view(v@), input@.len() as int),
            r@.len() == k,
            forall|j: int| 0 <= j < k ==> media_matches(#[trigger] r@[j], v@[j]@, input@),
        decreases v@.len() - k,
    {
        assert(drafts_view(v@)[k as int] == v@[k as int]@);
        r.push(media(input, &v[k]));
        k = k + 1;
    }
    r
}

/// Parses a session description. `None` on a fatal error, or when the
/// version, origin or session name is missing.
pub fn parse<'a>(input: &'a [u8]) -> (r: Option<Sdp<'a>>)
    ensures
        match parse_model(input@) {
            Some(m) => r matches Some(x) && sdp_matches(x, m, input@),
            None => r is None,
        },
{
    let mut sc = Scanner::new();
    let mut i: usize = 0;
    while i < input.len()
        invariant
            i <= input@.len(),
            scan(input@, i as nat) == Some(sc@),
            state_within(sc@, i as int),
        decreases input@.len() - i,
    {
        proof {
            lemma_step_within(sc@, input@, i as int);
        }
        if !sc.step(input, i) {
            proof {
                lemma_scan_stays_failed(input@, (i + 1) as nat, input@.len());
            }
            return None;
        }
        i = i + 1;
    }
    proof {
        lemma_parse_within(input@);
    }
    sc.close_media();
    match (sc.version, sc.origin, sc.session_name) {
        (Some(v), Some(o), Some(n)) => {
            let origin = Origin {
                user_id: text(input, o.user_id),
                session_id: text(input, o.session_id),
                session_version: text(input, o.session_version),
                network_type: text(input, o.network_type),
                address_type: text(input, o.address_type),
                unicast_address: text(input, o.unicast_address),
            };
            Some(
                Sdp {
                    version: text(input, v),
                    origin,
                    session_name: text(input, n),
                    connection: connection_data(input, sc.connection),
                    session_start_time: sc.start_time,
                    session_end_time: sc.end_time,
                    attributes: texts(input, &sc.attributes),
                    medias: medias(input, &sc.medias),
                },
            )
        },
        _ => None,
    }
}

/// Reads a value as a session description.
pub trait AsSDP<'a> {
    type Target;

    /// Whether `r` is what reading `self` gives.
    spec fn read_as(&self, r: Option<Self::Target>) -> bool;

    fn as_sdp(&'a self) -> (r: Option<Self::Target>)
        ensures
            self.read_as(r),
    ;
}

impl<'a> AsSDP<'a> for [u8] {
    type Target = Sdp<'a>;

    open spec fn read_as(&self, r: Option<Sdp<'a>>) -> bool {
        match parse_model(self@) {
            Some(m) => r matches Some(x) && sdp_matches(x, m, self@),
            None => r is None,
        }
    }

    fn as_sdp(&'a self) -> (r: Option<Sdp<'a>>) {
        parse(self)
    }
}

} // verus!
