use oracleguard::policy::{canonicalize_policy_json, derive_policy_ref, PolicyCanonError};
use sha2::{Digest, Sha256};

const FIXTURE_PRETTY: &[u8] = br#"{
  "schema": "oracleguard.policy.v1",
  "policy_version": 1,
  "anchored_commitment": "katiba://policy/constitutional-release/v1",
  "release_cap_basis_points": 7500,
  "allowed_assets": [
    "ADA"
  ]
}
"#;

const FIXTURE_CANONICAL: &[u8] = br#"{"allowed_assets":["ADA"],"anchored_commitment":"katiba://policy/constitutional-release/v1","policy_version":1,"release_cap_basis_points":7500,"schema":"oracleguard.policy.v1"}"#;

const FIXTURE_POLICY_REF: [u8; 32] = [
    0x56, 0xa7, 0xbb, 0x97, 0x93, 0xe4, 0x0a, 0xa5, 0x44, 0x02, 0xce, 0x67, 0xfc, 0xbc, 0xe1, 0x7d,
    0xee, 0x93, 0xb6, 0x71, 0x3c, 0x76, 0xcc, 0xba, 0x6c, 0x02, 0xc1, 0x1f, 0x74, 0x99, 0x68, 0xc2,
];

fn canonicalize_raw(raw: &[u8]) -> Result<Vec<u8>, PolicyCanonError> {
    canonicalize_policy_json(raw)
}

fn canonicalize(raw: &[u8]) -> Vec<u8> {
    match canonicalize_raw(raw) {
        Ok(bytes) => bytes,
        Err(e) => panic!("canonicalize failed: {e:?}"),
    }
}

#[test]
fn canonical_bytes_stable_across_loads() {
    let first = canonicalize(FIXTURE_PRETTY);
    let second = canonicalize(FIXTURE_PRETTY);
    assert_eq!(first, second);
}

#[test]
fn canonical_bytes_match_golden() {
    let bytes = canonicalize(FIXTURE_PRETTY);
    assert_eq!(bytes.as_slice(), FIXTURE_CANONICAL);
}

#[test]
fn whitespace_and_key_order_do_not_affect_canonical_bytes() {
    let a = br#"{"schema":"oracleguard.policy.v1","policy_version":1,"anchored_commitment":"katiba://policy/constitutional-release/v1","release_cap_basis_points":7500,"allowed_assets":["ADA"]}"#;
    let b = br#"
        {
            "allowed_assets" : [ "ADA" ],
            "release_cap_basis_points" : 7500,
            "policy_version"          :1,
            "anchored_commitment":"katiba://policy/constitutional-release/v1",
            "schema": "oracleguard.policy.v1"
        }
    "#;
    let ca = canonicalize(a);
    let cb = canonicalize(b);
    assert_eq!(ca, cb);
}

#[test]
fn nested_objects_have_keys_sorted_at_every_depth() {
    let input = br#"{"outer_z":{"b":1,"a":2},"outer_a":[{"z":1,"a":2}]}"#;
    let bytes = canonicalize(input);
    let expected = br#"{"outer_a":[{"a":2,"z":1}],"outer_z":{"a":2,"b":1}}"#;
    assert_eq!(bytes.as_slice(), &expected[..]);
}

#[test]
fn float_value_is_rejected() {
    let input = br#"{"release_cap_basis_points":75.0}"#;
    let err = canonicalize_raw(input).expect_err("expected float rejection");
    assert_eq!(err, PolicyCanonError::FloatForbidden);
}

#[test]
fn float_with_exponent_is_rejected() {
    let input = br#"{"x":1e2}"#;
    let err = canonicalize_raw(input).expect_err("expected float rejection");
    assert_eq!(err, PolicyCanonError::FloatForbidden);
}

#[test]
fn malformed_json_is_rejected() {
    let input = br#"{"unterminated": "#;
    let err = canonicalize_raw(input).expect_err("expected parse error");
    assert_eq!(err, PolicyCanonError::InvalidJson);
}

#[test]
fn mutation_of_semantic_bytes_changes_canonical_output() {
    let original = canonicalize(FIXTURE_PRETTY);
    let mutated = br#"{"schema":"oracleguard.policy.v1","policy_version":1,"anchored_commitment":"katiba://policy/constitutional-release/v1","release_cap_basis_points":5000,"allowed_assets":["ADA"]}"#;
    let mutated_bytes = canonicalize(mutated);
    assert_ne!(original, mutated_bytes);
}

#[test]
fn non_canonical_raw_bytes_differ_from_canonical_bytes() {
    assert_ne!(FIXTURE_PRETTY, FIXTURE_CANONICAL);
}

#[test]
fn policy_ref_matches_golden_sha256() {
    let r = derive_policy_ref(FIXTURE_CANONICAL);
    assert_eq!(r.as_bytes(), &FIXTURE_POLICY_REF);
}

#[test]
fn policy_ref_stable_across_derivations() {
    let a = derive_policy_ref(FIXTURE_CANONICAL);
    let b = derive_policy_ref(FIXTURE_CANONICAL);
    assert_eq!(a, b);
}

#[test]
fn policy_ref_changes_with_canonical_bytes() {
    let original = derive_policy_ref(FIXTURE_CANONICAL);
    let mutated = canonicalize(br#"{"schema":"oracleguard.policy.v1","policy_version":1,"anchored_commitment":"katiba://policy/constitutional-release/v1","release_cap_basis_points":5000,"allowed_assets":["ADA"]}"#);
    let mutated_ref = derive_policy_ref(&mutated);
    assert_ne!(original, mutated_ref);
}

#[test]
fn non_canonical_hash_differs_from_policy_ref() {
    let canonical_ref = derive_policy_ref(FIXTURE_CANONICAL);
    let mut hasher = Sha256::new();
    hasher.update(FIXTURE_PRETTY);
    let pretty = hasher.finalize();
    assert_ne!(canonical_ref.as_bytes()[..], pretty[..]);
}

#[test]
fn derive_from_canonicalize_roundtrip_matches_golden() {
    let canonical = canonicalize(FIXTURE_PRETTY);
    let r = derive_policy_ref(&canonical);
    assert_eq!(r.as_bytes(), &FIXTURE_POLICY_REF);
}

#[test]
fn policy_ref_is_not_the_input_bytes() {
    let r = derive_policy_ref(&[0u8; 32]);
    assert_ne!(r.as_bytes(), &[0u8; 32]);
    assert_eq!(r.0[0], 0x66);
    assert_eq!(r.0[31], 0x25);
}

#[test]
fn strings_keep_their_input_text() {
    let input = br#"{"s":"\u0041"}"#;
    assert_eq!(canonicalize(input).as_slice(), &input[..]);
}

#[test]
fn escapes_are_kept_as_written() {
    let input = b"{ \"k\" : \"a\\\"b\\\\c\\nd\\u0001e\\u00e9\\/\xc3\xa9\" }";
    let expected = b"{\"k\":\"a\\\"b\\\\c\\nd\\u0001e\\u00e9\\/\xc3\xa9\"}";
    assert_eq!(canonicalize(input).as_slice(), &expected[..]);
}

#[test]
fn keys_keep_their_input_text_and_sort_by_it() {
    let bytes = canonicalize(br#"{"b":1,"\u0061":2}"#);
    assert_eq!(bytes.as_slice(), &br#"{"\u0061":2,"b":1}"#[..]);
}

#[test]
fn keys_are_ordered_by_their_bytes() {
    let bytes = canonicalize("{\"\u{e9}\":1,\"z\":2,\"Z\":3,\"a\":4}".as_bytes());
    assert_eq!(bytes.as_slice(), "{\"Z\":3,\"a\":4,\"z\":2,\"\u{e9}\":1}".as_bytes());
}

#[test]
fn equal_keys_keep_their_order() {
    let bytes = canonicalize(br#"{"b":0,"a":1,"a":2}"#);
    assert_eq!(bytes.as_slice(), &br#"{"a":1,"a":2,"b":0}"#[..]);
}

#[test]
fn scalars_are_written_compactly() {
    let bytes = canonicalize(br#"[ null , true,false, 0, -7, 18446744073709551615, -9223372036854775808, "" ]"#);
    assert_eq!(
        bytes.as_slice(),
        &br#"[null,true,false,0,-7,18446744073709551615,-9223372036854775808,""]"#[..]
    );
}

#[test]
fn empty_containers_are_kept() {
    assert_eq!(canonicalize(br#" { "a" : [ ] , "b" : { } } "#).as_slice(), &br#"{"a":[],"b":{}}"#[..]);
}

#[test]
fn integer_beyond_u64_is_refused_as_float() {
    let err = canonicalize_raw(br#"{"big":18446744073709551616}"#).expect_err("expected refusal");
    assert_eq!(err, PolicyCanonError::FloatForbidden);
}

#[test]
fn integer_below_i64_is_refused_as_float() {
    let err = canonicalize_raw(br#"[-9223372036854775809]"#).expect_err("expected refusal");
    assert_eq!(err, PolicyCanonError::FloatForbidden);
}

#[test]
fn negative_zero_is_refused_as_float() {
    assert_eq!(canonicalize_raw(b"-0"), Err(PolicyCanonError::FloatForbidden));
}

#[test]
fn nested_float_is_refused() {
    let input = br#"[true,{"x":[1,2.5]}]"#;
    assert_eq!(canonicalize_raw(input), Err(PolicyCanonError::FloatForbidden));
}

#[test]
fn invalid_json_wins_over_float() {
    assert_eq!(canonicalize_raw(br#"[1.5,"#), Err(PolicyCanonError::InvalidJson));
}

#[test]
fn malformed_inputs_are_refused() {
    let cases: [&[u8]; 16] = [
        b"",
        b"   ",
        b"01",
        b"[1,]",
        b"{\"a\":1,}",
        b"{\"a\" 1}",
        b"{a:1}",
        b"[1] 2",
        b"1.",
        b"1e",
        b"-",
        b"\"\\x\"",
        b"\"\\ud800\"",
        b"\"\\udc00\"",
        b"\"a\tb\"",
        b"\"\xff\"",
    ];
    for case in cases {
        assert_eq!(canonicalize_raw(case), Err(PolicyCanonError::InvalidJson), "case {case:?}");
    }
}

#[test]
fn surrogate_pairs_are_accepted() {
    let input = br#""\ud83d\ude00""#;
    assert_eq!(canonicalize(input).as_slice(), &input[..]);
}

fn nested(depth: usize) -> Vec<u8> {
    let mut v = vec![b'['; depth];
    v.extend(std::iter::repeat(b']').take(depth));
    v
}

#[test]
fn nesting_is_limited_like_the_strict_reader() {
    assert_eq!(canonicalize(&nested(127)), nested(127));
    assert_eq!(canonicalize_raw(&nested(128)), Err(PolicyCanonError::InvalidJson));
}

#[test]
fn acceptance_agrees_with_serde_json() {
    let long_integer = vec![b'9'; 400];
    let extra: [&[u8]; 6] = [b"1e400", b"-1e400", b"1e-400", b"0e999999999999", b"[1.5e308]", &long_integer];
    for case in extra {
        let ours = canonicalize_raw(case) != Err(PolicyCanonError::InvalidJson);
        let theirs = serde_json::from_slice::<serde_json::Value>(case).is_ok();
        assert_eq!(ours, theirs, "case {case:?}");
    }
    let cases: [&[u8]; 24] = [
        br#"{"a":[1,2,{"b":null}]}"#,
        b" true ",
        b"false",
        b"null",
        b"\"x\"",
        b"-12",
        b"0",
        b"[]",
        b"{}",
        b"01",
        b"[1,]",
        b"{\"a\":1,}",
        b"[1] 2",
        b"1.",
        b"\"\\ud800\"",
        b"\"\\ud800\\u0041\"",
        b"\"\\ud83d\\ude00\"",
        b"\"a\nb\"",
        b"\"\xc3\xa9\"",
        b"\"\xc3\"",
        b"nul",
        b"[\"\\u12G4\"]",
        b"{\"k\"}",
        b"\t[ 1 ,\r\n 2 ]\n",
    ];
    for case in cases {
        let ours = canonicalize_raw(case) != Err(PolicyCanonError::InvalidJson);
        let theirs = serde_json::from_slice::<serde_json::Value>(case).is_ok();
        assert_eq!(ours, theirs, "case {case:?}");
    }
}

#[test]
fn canonical_bytes_of_a_pretty_document_hold_no_line_breaks_or_tabs() {
    let bytes = canonicalize(b"{\n\t\"a\" :\r\n [ 1 ,\t{ \"b c\" : \"d e\" } ]\n}\n");
    assert!(bytes.iter().all(|&b| b >= 0x20));
    assert_eq!(bytes.as_slice(), &br#"{"a":[1,{"b c":"d e"}]}"#[..]);
}

#[test]
fn deep_member_order_does_not_matter() {
    let a = canonicalize(br#"{"x":{"q":[{"n":1,"m":2}],"p":0},"w":true}"#);
    let b = canonicalize(br#"{"w":true,"x":{"p":0,"q":[{"m":2,"n":1}]}}"#);
    assert_eq!(a, b);
    assert_eq!(a.as_slice(), &br#"{"w":true,"x":{"p":0,"q":[{"m":2,"n":1}]}}"#[..]);
}

#[test]
fn numbers_beyond_the_float_range_are_invalid() {
    assert_eq!(canonicalize_raw(br#"{"x":1e400}"#), Err(PolicyCanonError::InvalidJson));
    let mut huge = b"[".to_vec();
    huge.extend(std::iter::repeat(b'7').take(400));
    huge.push(b']');
    assert_eq!(canonicalize_raw(&huge), Err(PolicyCanonError::InvalidJson));
    assert_eq!(canonicalize_raw(br#"{"x":1e-400}"#), Err(PolicyCanonError::FloatForbidden));
}

#[test]
fn canonical_bytes_canonicalize_to_themselves() {
    let once = canonicalize(FIXTURE_PRETTY);
    assert_eq!(canonicalize(&once), once);
    let nested = canonicalize(br#"{"z":[{"b":"A","a":-3}],"a":{"y":null,"x":[true]}}"#);
    assert_eq!(canonicalize(&nested), nested);
}
