//! Properties of the parser, stated over the model and proved.
use vstd::prelude::*;
use crate::model::{
    accepts, is_eol, is_word_byte, lemma_parse_clean, lemma_parse_within,
    lemma_scan_stays_failed, line_span, media_clean, media_complete, media_within, operator_of,
    parse_model, scan, sdp_clean, sdp_within, span_text, span_within, step, word_span, Operator,
    Phase, ScanModel, SdpModel, Section, Span, EQUALS,
};
use crate::document::{sdp_matches, ConnectionData, Media, Origin, Sdp};

verus! {

/// `t` is a verbatim slice of `input`.
pub open spec fn is_slice_of(t: Seq<u8>, input: Seq<u8>) -> bool {
    exists|a: int, b: int| 0 <= a <= b <= input.len() && t == input.subrange(a, b)
}

/// `t` is a slice of `input` of one or more bytes, none a line break or a space.
pub open spec fn word_of(t: Seq<u8>, input: Seq<u8>) -> bool {
    is_slice_of(t, input) && t.len() > 0 && forall|k: int| 0 <= k < t.len() ==> is_word_byte(#[trigger] t[k])
}

/// `t` is a slice of `input` of one or more bytes, none a line break, the
/// first not a space.
pub open spec fn line_of(t: Seq<u8>, input: Seq<u8>) -> bool {
    &&& is_slice_of(t, input)
    &&& t.len() > 0
    &&& is_word_byte(t[0])
    &&& forall|k: int| 0 <= k < t.len() ==> !is_eol(#[trigger] t[k])
}

pub open spec fn connection_words(c: Option<ConnectionData>, input: Seq<u8>) -> bool {
    c matches Some(c) ==> word_of(c.network_type@, input) && word_of(c.address_type@, input)
        && word_of(c.connection_address@, input)
}

pub open spec fn all_words(v: Seq<&[u8]>, input: Seq<u8>) -> bool {
    forall|k: int| 0 <= k < v.len() ==> word_of(#[trigger] v[k]@, input)
}

pub open spec fn all_lines(v: Seq<&[u8]>, input: Seq<u8>) -> bool {
    forall|k: int| 0 <= k < v.len() ==> line_of(#[trigger] v[k]@, input)
}

pub open spec fn origin_words(o: Origin, input: Seq<u8>) -> bool {
    word_of(o.user_id@, input) && word_of(o.session_id@, input) && word_of(o.session_version@, input)
        && word_of(o.network_type@, input) && word_of(o.address_type@, input)
        && word_of(o.unicast_address@, input)
}

pub open spec fn media_words(m: Media, input: Seq<u8>) -> bool {
    word_of(m.media_type@, input) && word_of(m.protocol@, input) && all_words(m.formats@, input)
        && connection_words(m.connection, input) && all_lines(m.attributes@, input)
}

/// Every byte field of `x` is a verbatim slice of `input`: a word (no line
/// break, no space), or for an attribute the rest of its line.
pub open spec fn sdp_slices(x: Sdp, input: Seq<u8>) -> bool {
    &&& word_of(x.version@, input)
    &&& origin_words(x.origin, input)
    &&& word_of(x.session_name@, input)
    &&& connection_words(x.connection, input)
    &&& all_lines(x.attributes@, input)
    &&& forall|k: int| 0 <= k < x.medias@.len() ==> media_words(#[trigger] x.medias@[k], input)
}

proof fn lemma_word(input: Seq<u8>, sp: Span, t: Seq<u8>)
    requires
        span_within(sp, input.len() as int),
        word_span(input, sp),
        t == span_text(input, sp),
    ensures
        word_of(t, input),
{
    assert(0 <= sp.start as int <= sp.end as int <= input.len() && t == input.subrange(
        sp.start as int,
        sp.end as int,
    ));
    assert forall|k: int| 0 <= k < t.len() implies is_word_byte(#[trigger] t[k]) by {
        assert(t[k] == input[sp.start + k]);
    }
}

proof fn lemma_line(input: Seq<u8>, sp: Span, t: Seq<u8>)
    requires
        span_within(sp, input.len() as int),
        line_span(input, sp),
        t == span_text(input, sp),
    ensures
        line_of(t, input),
{
    assert(0 <= sp.start as int <= sp.end as int <= input.len() && t == input.subrange(
        sp.start as int,
        sp.end as int,
    ));
    assert(t[0] == input[sp.start as int]);
    assert forall|k: int| 0 <= k < t.len() implies !is_eol(#[trigger] t[k]) by {
        assert(t[k] == input[sp.start + k]);
    }
}

/// Every byte field of a parsed document is a verbatim slice of the input,
/// with no copy or transformation (only the times are decoded). Each is one
/// or more bytes without a line break; all but the attributes are without a
/// space too.
pub proof fn law_spans_are_slices(input: Seq<u8>, x: Sdp, m: SdpModel)
    requires
        input.len() <= usize::MAX,
        parse_model(input) == Some(m),
        sdp_matches(x, m, input),
    ensures
        sdp_slices(x, input),
{
    lemma_parse_within(input);
    lemma_parse_clean(input);
    assert(sdp_within(m, input.len() as int));
    assert(sdp_clean(input, m));
    let n = input.len() as int;
    lemma_word(input, m.version, x.version@);
    lemma_word(input, m.session_name, x.session_name@);
    let o = m.origin;
    lemma_word(input, o.user_id, x.origin.user_id@);
    lemma_word(input, o.session_id, x.origin.session_id@);
    lemma_word(input, o.session_version, x.origin.session_version@);
    lemma_word(input, o.network_type, x.origin.network_type@);
    lemma_word(input, o.address_type, x.origin.address_type@);
    lemma_word(input, o.unicast_address, x.origin.unicast_address@);
    if let Some(c) = m.connection {
        let xc = x.connection->0;
        lemma_word(input, c.network_type, xc.network_type@);
        lemma_word(input, c.address_type, xc.address_type@);
        lemma_word(input, c.connection_address, xc.connection_address@);
    }
    assert forall|k: int| 0 <= k < x.attributes@.len() implies line_of(#[trigger] x.attributes@[k]@, input) by {
        assert(span_within(m.attributes[k], n));
        assert(line_span(input, m.attributes[k]));
        lemma_line(input, m.attributes[k], x.attributes@[k]@);
    }
    assert forall|k: int| 0 <= k < x.medias@.len() implies media_words(#[trigger] x.medias@[k], input) by {
        let xm = x.medias@[k];
        let mm = m.medias[k];
        assert(media_within(mm, n));
        assert(media_clean(input, mm));
        assert(media_complete(mm));
        lemma_word(input, mm.media_type->0, xm.media_type@);
        lemma_word(input, mm.protocol->0, xm.protocol@);
        assert forall|j: int| 0 <= j < xm.formats@.len() implies word_of(#[trigger] xm.formats@[j]@, input) by {
            assert(span_within(mm.formats[j], n));
            assert(word_span(input, mm.formats[j]));
            lemma_word(input, mm.formats[j], xm.formats@[j]@);
        }
        assert forall|j: int| 0 <= j < xm.attributes@.len() implies line_of(
            #[trigger] xm.attributes@[j]@,
            input,
        ) by {
            assert(span_within(mm.attributes[j], n));
            assert(line_span(input, mm.attributes[j]));
            lemma_line(input, mm.attributes[j], xm.attributes@[j]@);
        }
        if let Some(c) = mm.connection {
            let xc = xm.connection->0;
            lemma_word(input, c.network_type, xc.network_type@);
            lemma_word(input, c.address_type, xc.address_type@);
            lemma_word(input, c.connection_address, xc.connection_address@);
        }
    }
}

/// In the main section a newly accepted line has a strictly greater order
/// than the line before it, unless both are attribute lines.
pub proof fn law_main_accepts_in_order(s: ScanModel, input: Seq<u8>, i: int)
    requires
        0 <= i < input.len(),
        s.section is Main,
        s.phase is Begin,
        step(s, input, i) matches Some(t) && t.phase is Assign,
    ensures
        step(s, input, i)->0.op.order() > s.op.order() || (s.op is A && step(s, input, i)->0.op is A),
{
}

proof fn lemma_step_main(s: ScanModel, input: Seq<u8>, i: int)
    requires
        0 <= i < input.len(),
        step(s, input, i) matches Some(t) && t.section is Main,
    ensures
        s.section is Main,
        s.op.order() <= step(s, input, i)->0.op.order(),
{
}

/// While the document is still in its main section, the order of the current
/// operator never decreases: the main section's lines come in order.
pub proof fn law_main_order_monotone(input: Seq<u8>, n: nat, p: nat)
    requires
        n <= p <= input.len(),
        scan(input, p) matches Some(t) && t.section is Main,
    ensures
        scan(input, n) matches Some(s) && s.section is Main && s.op.order() <= scan(input, p)->0.op.order(),
    decreases p - n,
{
    if n < p {
        let s = scan(input, (p - 1) as nat)->0;
        lemma_step_main(s, input, p - 1);
        law_main_order_monotone(input, n, (p - 1) as nat);
    }
}

/// An `o=` line that ends without all six of its fields, or a `c=` line
/// without all three, fails the parse: no partial origin or connection is
/// ever kept. A line ending in a space after its leading fields lacks the
/// last one.
pub proof fn law_incomplete_field_fails(s: ScanModel, input: Seq<u8>, i: nat)
    requires
        i < input.len(),
        scan(input, i) == Some(s),
        s.phase is Reading,
        is_eol(input[i as int]),
        (s.op is O && (s.slots.len() < 5 || s.token is None)) || (s.op is C && (s.slots.len() < 2
            || s.token is None)),
    ensures
        step(s, input, i as int) is None,
        parse_model(input) is None,
{
    lemma_scan_stays_failed(input, i + 1, input.len());
}

/// The parts of the state that make up the document.
pub open spec fn same_content(s: ScanModel, t: ScanModel) -> bool {
    &&& s.version == t.version
    &&& s.origin == t.origin
    &&& s.session_name == t.session_name
    &&& s.connection == t.connection
    &&& s.start_time == t.start_time
    &&& s.end_time == t.end_time
    &&& s.attributes == t.attributes
    &&& s.medias == t.medias
    &&& s.media == t.media
}

pub open spec fn discarded(op: Operator) -> bool {
    op is I || op is U || op is E || op is P || op is B || op is Z || op is K
}

/// Reading the value of an `i`, `u`, `e`, `p`, `b`, `z` or `k` line never
/// fails and adds nothing to the document.
pub proof fn law_discarded_fields(s: ScanModel, input: Seq<u8>, i: int)
    requires
        0 <= i < input.len(),
        s.phase is Reading,
        discarded(s.op),
    ensures
        step(s, input, i) matches Some(t) && same_content(s, t) && t.op == s.op,
{
}

proof fn lemma_discarded_value(input: Seq<u8>, a: nat, b: nat, k: nat)
    requires
        a + 2 <= k <= b < input.len(),
        scan(input, a) matches Some(s) && s.phase is Begin && accepts(s.section, s.op, operator_of(input[a as int])),
        discarded(operator_of(input[a as int])),
        input[a + 1int] == EQUALS,
        forall|j: int| a + 2 <= j < b ==> !is_eol(#[trigger] input[j]),
    ensures
        scan(input, k) matches Some(t) && same_content(scan(input, a)->0, t) && t.op == operator_of(
            input[a as int],
        ) && t.phase is Reading && t.section == scan(input, a)->0.section,
    decreases k,
{
    if k > a + 2 {
        lemma_discarded_value(input, a, b, (k - 1) as nat);
        let t = scan(input, (k - 1) as nat)->0;
        assert(!is_eol(input[k - 1]));
        law_discarded_fields(t, input, k - 1);
    }
}

/// A whole accepted `i`, `u`, `e`, `p`, `b`, `z` or `k` line, from its letter
/// to its line break, adds nothing to the document: it only becomes the
/// last accepted line for the ordering of those that follow.
pub proof fn law_discarded_line(input: Seq<u8>, a: nat, b: nat)
    requires
        a + 2 <= b < input.len(),
        scan(input, a) matches Some(s) && s.phase is Begin && accepts(s.section, s.op, operator_of(input[a as int])),
        discarded(operator_of(input[a as int])),
        input[a + 1int] == EQUALS,
        forall|j: int| a + 2 <= j < b ==> !is_eol(#[trigger] input[j]),
        is_eol(input[b as int]),
    ensures
        scan(input, b + 1) matches Some(t) && same_content(scan(input, a)->0, t) && t.op == operator_of(
            input[a as int],
        ) && t.phase is Begin && t.section == scan(input, a)->0.section,
{
    lemma_discarded_value(input, a, b, b);
}

proof fn lemma_skipping(input: Seq<u8>, a: nat, b: nat, k: nat)
    requires
        a < k <= b < input.len(),
        scan(input, a) matches Some(s) && s.phase is Begin && !is_eol(input[a as int]) && !accepts(
            s.section,
            s.op,
            operator_of(input[a as int]),
        ),
        forall|j: int| a < j < b ==> !is_eol(#[trigger] input[j]),
    ensures
        scan(input, k) == Some(ScanModel { phase: Phase::SkippingError, ..scan(input, a)->0 }),
    decreases k,
{
    if k > a + 1 {
        lemma_skipping(input, a, b, (k - 1) as nat);
        assert(!is_eol(input[k - 1]));
    }
}

/// A line that is not accepted (out of order, repeated, or with an unknown
/// letter) is skipped up to its line break and is never fatal: the state
/// after it is the state before it, as if the line were not there.
pub proof fn law_rejected_line(input: Seq<u8>, a: nat, b: nat)
    requires
        a < b < input.len(),
        scan(input, a) matches Some(s) && s.phase is Begin && !is_eol(input[a as int]) && !accepts(
            s.section,
            s.op,
            operator_of(input[a as int]),
        ),
        forall|j: int| a < j < b ==> !is_eol(#[trigger] input[j]),
        is_eol(input[b as int]),
    ensures
        scan(input, b + 1) == scan(input, a),
{
    lemma_skipping(input, a, b, b);
}

} // verus!
