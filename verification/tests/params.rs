use ihs_wl_server::params::{decode_map, Ratio, Reader, Value, ViewParams};
use ihs_wl_server::params::{T_FALSE, T_FLOAT64, T_INT32, T_INT64, T_MAP, T_NULL, T_STRING, T_TRUE};
use ihs_wl_server::view::creation_params;

fn string(b: &mut Vec<u8>, s: &str) {
    b.push(T_STRING);
    b.push(s.len() as u8);
    b.extend_from_slice(s.as_bytes());
}

// What StandardMessageCodec().encodeMessage({'token': null,
// 'app_id': 'org.example.app', 'dpr': 1.5}) produces.
fn encoded() -> Vec<u8> {
    let mut b = vec![T_MAP, 3];
    string(&mut b, "token");
    b.push(T_NULL);
    string(&mut b, "app_id");
    string(&mut b, "org.example.app");
    string(&mut b, "dpr");
    b.push(T_FLOAT64);
    while b.len() % 8 != 0 {
        b.push(0);
    }
    b.extend_from_slice(&1.5f64.to_le_bytes());
    b
}

#[test]
fn decodes_the_widget_params() {
    let p = ViewParams::decode(&encoded());
    assert_eq!(p.token, None);
    assert_eq!(p.app_id.as_deref(), Some("org.example.app"));
    assert_eq!(p.dpr, Some(Ratio::Double(1.5f64.to_bits())));
}

#[test]
fn tolerates_garbage_and_truncation() {
    assert_eq!(ViewParams::decode(&[]), ViewParams::default());
    assert_eq!(ViewParams::decode(&[0xff, 0xff]), ViewParams::default());
    let full = encoded();
    for n in 0..full.len() {
        // Never panics, whatever prefix it gets.
        let _ = ViewParams::decode(&full[..n]);
    }
}

#[test]
fn long_sizes() {
    let s = "x".repeat(300);
    let mut b = vec![T_MAP, 1, T_STRING, 6];
    b.extend_from_slice(b"app_id");
    b.push(T_STRING);
    b.push(254);
    b.extend_from_slice(&(300u16).to_le_bytes());
    b.extend_from_slice(s.as_bytes());
    assert_eq!(
        ViewParams::decode(&b).app_id.as_deref(),
        Some(s.as_str())
    );
}

#[test]
fn a_size_of_four_bytes() {
    let s = "y".repeat(300);
    let mut b = vec![T_MAP, 1, T_STRING, 5];
    b.extend_from_slice(b"token");
    b.push(T_STRING);
    b.push(255);
    b.extend_from_slice(&(300u32).to_le_bytes());
    b.extend_from_slice(s.as_bytes());
    assert_eq!(ViewParams::decode(&b).token.as_deref(), Some(s.as_str()));
}

#[test]
fn text_is_read_as_utf_8() {
    let mut b = vec![T_MAP, 1];
    string(&mut b, "app_id");
    string(&mut b, "org.exämple.日本");
    assert_eq!(
        ViewParams::decode(&b).app_id.as_deref(),
        Some("org.exämple.日本")
    );
}

#[test]
fn text_that_is_not_utf_8_ends_the_map() {
    let mut b = vec![T_MAP, 2];
    string(&mut b, "token");
    string(&mut b, "t");
    string(&mut b, "app_id");
    b.extend_from_slice(&[T_STRING, 2, 0xc3, 0x28]);
    let p = ViewParams::decode(&b);
    assert_eq!(p.token.as_deref(), Some("t"));
    assert_eq!(p.app_id, None);
}

#[test]
fn every_kind_of_value_is_read() {
    let mut b = vec![T_MAP, 6];
    string(&mut b, "a");
    b.push(T_TRUE);
    string(&mut b, "b");
    b.push(T_FALSE);
    string(&mut b, "c");
    b.push(T_INT32);
    b.extend_from_slice(&(-5i32).to_le_bytes());
    string(&mut b, "d");
    b.push(T_INT64);
    b.extend_from_slice(&(-6_000_000_000i64).to_le_bytes());
    string(&mut b, "e");
    b.push(T_NULL);
    string(&mut b, "f");
    string(&mut b, "text");
    let got = decode_map(&b);
    let values: Vec<String> = got.iter().map(|(k, v)| format!("{k}={v:?}")).collect();
    assert_eq!(
        values,
        vec![
            "a=Bool(true)",
            "b=Bool(false)",
            "c=Int(-5)",
            "d=Int(-6000000000)",
            "e=Null",
            "f=Text(\"text\")"
        ]
    );
}

#[test]
fn a_cut_message_gives_what_came_before_the_cut() {
    let full = encoded();
    for n in 0..full.len() {
        let p = ViewParams::decode(&full[..n]);
        assert_eq!(p.dpr, None);
        // The map's head, the token's entry and the app_id's: 35 bytes.
        assert_eq!(p.app_id.is_some(), n >= 35, "prefix {n}");
    }
}

#[test]
fn a_ratio_may_be_a_whole_number() {
    let mut b = vec![T_MAP, 1];
    string(&mut b, "dpr");
    b.push(T_INT32);
    b.extend_from_slice(&2i32.to_le_bytes());
    assert_eq!(ViewParams::decode(&b).dpr, Some(Ratio::Whole(2)));
}

#[test]
fn a_ratio_that_is_no_scale_is_passed_over() {
    for bad in [0.0f64, -1.0, f64::NAN, f64::INFINITY] {
        let mut b = vec![T_MAP, 1];
        string(&mut b, "dpr");
        b.push(T_FLOAT64);
        while b.len() % 8 != 0 {
            b.push(0);
        }
        b.extend_from_slice(&bad.to_le_bytes());
        assert_eq!(ViewParams::decode(&b).dpr, None, "{bad}");
    }
}

#[test]
fn a_reader_takes_no_more_than_there_is() {
    let bytes = [1u8, 2, 3];
    let mut r = Reader { bytes: &bytes, pos: 0 };
    assert_eq!(r.u8(), Some(1));
    assert_eq!(r.take(3), None);
    assert_eq!(r.take(2), Some(&bytes[1..]));
    assert_eq!(r.u8(), None);
    let mut r = Reader { bytes: &[T_NULL], pos: 0 };
    assert!(matches!(r.value(), Some(Value::Null)));
    assert!(r.value().is_none());
}

#[test]
fn a_view_without_parameters_names_nothing() {
    assert_eq!(creation_params(None), ViewParams::default());
    assert_eq!(
        creation_params(Some(&encoded())).app_id.as_deref(),
        Some("org.example.app")
    );
}

#[test]
fn aligning_skips_to_the_next_multiple() {
    let bytes = [0u8; 12];
    let mut r = Reader {
        bytes: &bytes,
        pos: 3,
    };
    assert_eq!(r.align(8), Some(()));
    assert_eq!(r.pos, 8);
    // Where it stands already, it stays.
    assert_eq!(r.align(8), Some(()));
    assert_eq!(r.pos, 8);
    assert_eq!(r.align(1), Some(()));
    assert_eq!(r.pos, 8);
    r.pos = 9;
    assert_eq!(r.align(4), Some(()));
    assert_eq!(r.pos, 12);
    // Past the end there is nothing to skip to.
    r.pos = 9;
    assert_eq!(r.align(8), None);
    assert_eq!(r.pos, 9);
}

#[test]
fn reading_stops_behind_what_was_read() {
    fn stop(bytes: &[u8]) -> usize {
        let mut r = Reader { bytes, pos: 0 };
        assert_eq!(r.value(), None);
        r.pos
    }
    assert_eq!(stop(&[]), 0);
    assert_eq!(stop(&[T_INT32, 1, 2, 3]), 1);
    assert_eq!(stop(&[99]), 1);
    assert_eq!(stop(&[T_FLOAT64, 0, 0]), 1);
    assert_eq!(stop(&[T_FLOAT64, 0, 0, 0, 0, 0, 0, 0, 1]), 8);
    assert_eq!(stop(&[T_STRING]), 1);
    assert_eq!(stop(&[T_STRING, 254, 1]), 2);
    assert_eq!(stop(&[T_STRING, 5, b'a']), 2);
    assert_eq!(stop(&[T_STRING, 1, 0xff]), 3);
}
