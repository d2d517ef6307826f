use sdp::{parse, AsSDP, Operator, Sdp};

const HEAD: &str = "v=0\r\no=alice 2890844526 2890842807 IN IP4 10.0.0.1\r\ns=Call\r\n";

fn doc(rest: &str) -> String {
    format!("{}{}", HEAD, rest)
}

fn check_origin(s: &Sdp) {
    assert_eq!(s.origin.user_id, b"alice");
    assert_eq!(s.origin.session_id, b"2890844526");
    assert_eq!(s.origin.session_version, b"2890842807");
    assert_eq!(s.origin.network_type, b"IN");
    assert_eq!(s.origin.address_type, b"IP4");
    assert_eq!(s.origin.unicast_address, b"10.0.0.1");
}

#[test]
fn minimal_document() {
    let s = parse(HEAD.as_bytes()).unwrap();
    assert_eq!(s.version, b"0");
    check_origin(&s);
    assert_eq!(s.session_name, b"Call");
    assert!(s.connection.is_none());
    assert_eq!(s.session_start_time, 0);
    assert_eq!(s.session_end_time, 0);
    assert!(s.attributes.is_empty());
    assert!(s.medias.is_empty());
}

#[test]
fn as_sdp_reads_a_slice() {
    let bytes: &[u8] = HEAD.as_bytes();
    let s = bytes.as_sdp().unwrap();
    assert_eq!(s.session_name, b"Call");
}

#[test]
fn origin_missing_a_token_fails() {
    let text = "v=0\r\no=alice 2890844526 IN IP4 10.0.0.1\r\ns=Call\r\n";
    assert!(parse(text.as_bytes()).is_none());
}

#[test]
fn origin_with_a_seventh_token_fails() {
    let text = "v=0\r\no=alice 1 2 IN IP4 10.0.0.1 extra\r\ns=Call\r\n";
    assert!(parse(text.as_bytes()).is_none());
}

#[test]
fn attribute_keeps_embedded_spaces() {
    let text = doc("a=rtpmap:0 PCMU/8000\r\n");
    let s = parse(text.as_bytes()).unwrap();
    assert_eq!(s.attributes.len(), 1);
    assert_eq!(s.attributes[0], b"rtpmap:0 PCMU/8000");
}

#[test]
fn attribute_drops_leading_spaces_only() {
    let text = doc("a=  sendrecv \r\na=x\r\n");
    let s = parse(text.as_bytes()).unwrap();
    assert_eq!(s.attributes.len(), 2);
    assert_eq!(s.attributes[0], b"sendrecv ");
    assert_eq!(s.attributes[1], b"x");
}

#[test]
fn time_zero_is_unbounded() {
    let text = doc("t=0 0\r\n");
    let s = parse(text.as_bytes()).unwrap();
    assert_eq!(s.session_start_time, u64::MIN);
    assert_eq!(s.session_end_time, u64::MAX);
}

#[test]
fn time_is_moved_to_the_unix_epoch() {
    let text = doc("t=2208988800 2208988801\r\n");
    let s = parse(text.as_bytes()).unwrap();
    assert_eq!(s.session_start_time, 0);
    assert_eq!(s.session_end_time, 1);
}

#[test]
fn time_before_the_unix_epoch_fails() {
    assert!(parse(doc("t=5 6\r\n").as_bytes()).is_none());
}

#[test]
fn time_not_a_number_fails() {
    assert!(parse(doc("t=now 0\r\n").as_bytes()).is_none());
    assert!(parse(doc("t=0 later\r\n").as_bytes()).is_none());
}

#[test]
fn time_with_one_value_fails() {
    assert!(parse(doc("t=0\r\n").as_bytes()).is_none());
}

#[test]
fn media_count_defaults_to_one() {
    let text = doc("m=audio 49170 RTP/AVP 0\r\n");
    let s = parse(text.as_bytes()).unwrap();
    assert_eq!(s.medias.len(), 1);
    let m = &s.medias[0];
    assert_eq!(m.media_type, b"audio");
    assert_eq!(m.port, 49170);
    assert_eq!(m.number_of_ports, 1);
    assert_eq!(m.protocol, b"RTP/AVP");
    assert_eq!(m.formats.len(), 1);
    assert_eq!(m.formats[0], b"0");
}

#[test]
fn media_count_after_slash() {
    let text = doc("m=video 49170/2 RTP/AVP 31\r\n");
    let s = parse(text.as_bytes()).unwrap();
    let m = &s.medias[0];
    assert_eq!(m.port, 49170);
    assert_eq!(m.number_of_ports, 2);
    assert_eq!(m.formats[0], b"31");
}

#[test]
fn media_bad_port_fails() {
    assert!(parse(doc("m=audio port RTP/AVP 0\r\n").as_bytes()).is_none());
    assert!(parse(doc("m=audio 70000 RTP/AVP 0\r\n").as_bytes()).is_none());
    assert!(parse(doc("m=audio 49170/x RTP/AVP 0\r\n").as_bytes()).is_none());
}

#[test]
fn media_blocks_in_order() {
    let text = doc(
        "t=0 0\r\nm=audio 49170 RTP/AVP 0 8\r\nc=IN IP4 224.2.17.12/127\r\na=rtpmap:0 PCMU/8000\r\na=ptime:20\r\nm=video 51372 RTP/AVP 31\r\n",
    );
    let s = parse(text.as_bytes()).unwrap();
    assert_eq!(s.medias.len(), 2);
    let a = &s.medias[0];
    assert_eq!(a.formats.len(), 2);
    assert_eq!(a.formats[1], b"8");
    let c = a.connection.as_ref().unwrap();
    assert_eq!(c.network_type, b"IN");
    assert_eq!(c.address_type, b"IP4");
    assert_eq!(c.connection_address, b"224.2.17.12/127");
    assert_eq!(a.attributes.len(), 2);
    assert_eq!(a.attributes[0], b"rtpmap:0 PCMU/8000");
    assert_eq!(a.attributes[1], b"ptime:20");
    let v = &s.medias[1];
    assert_eq!(v.media_type, b"video");
    assert_eq!(v.port, 51372);
    assert!(v.connection.is_none());
    assert!(v.attributes.is_empty());
    assert!(s.attributes.is_empty());
}

#[test]
fn incomplete_media_is_dropped() {
    let text = doc("m=audio 49170\r\na=x\r\n");
    let s = parse(text.as_bytes()).unwrap();
    assert!(s.medias.is_empty());
}

#[test]
fn discarded_fields_add_nothing() {
    let text = doc(
        "i=A talk\r\nu=http://example.com/x\r\ne=alice@example.com\r\np=+1 555 0100\r\nc=IN IP4 10.0.0.2\r\nb=AS:64\r\nt=0 0\r\nz=2882844526 -1h\r\nk=clear:key\r\n",
    );
    let s = parse(text.as_bytes()).unwrap();
    check_origin(&s);
    let c = s.connection.as_ref().unwrap();
    assert_eq!(c.network_type, b"IN");
    assert_eq!(c.address_type, b"IP4");
    assert_eq!(c.connection_address, b"10.0.0.2");
    assert!(s.attributes.is_empty());
    assert!(s.medias.is_empty());
}

#[test]
fn out_of_order_line_is_skipped() {
    let text = doc("v=1\r\nc=IN IP4 10.0.0.3\r\ni=late\r\n");
    let s = parse(text.as_bytes()).unwrap();
    assert_eq!(s.version, b"0");
    assert_eq!(s.connection.as_ref().unwrap().connection_address, b"10.0.0.3");
}

#[test]
fn origin_after_session_name_is_skipped() {
    let text = "v=0\r\ns=Call\r\no=alice 1 2 IN IP4 10.0.0.1\r\n";
    assert!(parse(text.as_bytes()).is_none());
}

#[test]
fn unknown_letter_is_skipped() {
    let text = doc("x=whatever\r\na=kept\r\n");
    let s = parse(text.as_bytes()).unwrap();
    assert_eq!(s.attributes.len(), 1);
    assert_eq!(s.attributes[0], b"kept");
}

#[test]
fn line_without_equals_is_skipped() {
    let text = doc("a:nothing\r\na=kept\r\n");
    let s = parse(text.as_bytes()).unwrap();
    assert_eq!(s.attributes.len(), 1);
    assert_eq!(s.attributes[0], b"kept");
}

#[test]
fn spaces_in_version_or_name_fail() {
    assert!(parse(b"v=0 1\r\no=a 1 2 IN IP4 h\r\ns=Call\r\n").is_none());
    assert!(parse(doc("").replace("s=Call", "s=My Call").as_bytes()).is_none());
}

#[test]
fn connection_missing_a_token_fails() {
    assert!(parse(doc("c=IN IP4\r\n").as_bytes()).is_none());
    assert!(parse(doc("c=IN IP4 10.0.0.1 extra\r\n").as_bytes()).is_none());
}

#[test]
fn connection_ending_in_a_space_fails() {
    assert!(parse(doc("c=IN IP4 \r\n").as_bytes()).is_none());
    assert!(parse(doc("m=audio 49170 RTP/AVP 0\r\nc=IN IP4 \r\n").as_bytes()).is_none());
}

#[test]
fn origin_ending_in_a_space_fails() {
    let text = "v=0\r\no=alice 2890844526 2890842807 IN IP4 \r\ns=Call\r\n";
    assert!(parse(text.as_bytes()).is_none());
}

#[test]
fn missing_required_field_fails() {
    assert!(parse(b"v=0\r\ns=Call\r\n").is_none());
    assert!(parse(b"").is_none());
    assert!(parse(b"o=a 1 2 IN IP4 h\r\ns=Call\r\n").is_none());
}

#[test]
fn attributes_interleave_after_time() {
    let text = doc("a=one\r\nt=0 0\r\na=two\r\nr=7d 1h 0 25h\r\na=three\r\n");
    let s = parse(text.as_bytes()).unwrap();
    assert_eq!(s.attributes.len(), 3);
    assert_eq!(s.attributes[2], b"three");
}

#[test]
fn bare_line_feeds_are_accepted() {
    let s = parse(b"v=0\no=a 1 2 IN IP4 h\ns=S\nt=0 0\n").unwrap();
    assert_eq!(s.origin.unicast_address, b"h");
    assert_eq!(s.session_name, b"S");
    assert_eq!(s.session_end_time, u64::MAX);
}

#[test]
fn fields_are_slices_of_the_input() {
    let text = doc("a=rtpmap:0 PCMU/8000\r\n");
    let bytes = text.as_bytes();
    let s = parse(bytes).unwrap();
    let range = bytes.as_ptr_range();
    for f in [s.version, s.session_name, s.origin.user_id, s.attributes[0]] {
        assert!(range.contains(&f.as_ptr()));
    }
}

#[test]
fn operator_orders() {
    assert_eq!(Operator::Unknown.get_order(), 0);
    assert_eq!(Operator::V.get_order(), 1);
    assert_eq!(Operator::T.get_order(), 10);
    assert_eq!(Operator::A.get_order(), 14);
    assert_eq!(Operator::M.get_order(), 15);
}
