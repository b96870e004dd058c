use hmac::{KeyInit, Mac};
use sha2::Digest;
use skyspark_client::auth::{
    auth_message, client_final, client_final_no_proof, client_first_bare, parse_server_first,
    scram_client_proof,
};
use skyspark_client::ops::{
    HisReadRange, check_read_by_ids, eval_req, his_read_req, his_write_bool_req,
    his_write_num_req, into_result, read_by_ids_req, read_req,
};
use skyspark_client::tagname::TagName;
use skyspark_client::value::{
    Col, Date, DateTime, Dict, Grid, NumMag, Number, Time, Value,
};

fn tn(s: &str) -> TagName {
    TagName::parse(s).unwrap()
}

fn ts(h: u8) -> DateTime {
    DateTime {
        date: Date { year: 2021, month: 6, day: 1 },
        time: Time { hour: h, minute: 0, second: 0, millis: 0 },
        offset_min: -300,
        tz: String::from("New_York"),
    }
}

#[test]
fn error_grid_detection() {
    let g = Grid {
        meta: Dict {
            entries: vec![
                (tn("err"), Value::Marker),
                (tn("dis"), Value::Str(String::from("Invalid filter"))),
            ],
        },
        cols: vec![],
        rows: vec![],
    };
    let e = into_result(g).err().unwrap();
    assert_eq!(e.msg, "Invalid filter");

    let ok = Grid {
        meta: Dict { entries: vec![(tn("dis"), Value::Str(String::from("fine")))] },
        cols: vec![],
        rows: vec![],
    };
    assert!(into_result(ok).is_ok());
}

#[test]
fn his_write_num_builds_typed_cells() {
    let samples = vec![(
        ts(9),
        Number { mag: NumMag::Dec { neg: false, mag: 725, scale: 1 }, unit: Some(String::from("°F")) },
    )];
    let g = his_write_num_req("point-1", &samples);
    assert_eq!(g.rows.len(), 1);
    let row = &g.rows[0];
    assert_eq!(row.entries[0].0.as_str(), "ts");
    assert!(matches!(row.entries[0].1, Value::DateTime(_)));
    assert_eq!(row.entries[1].0.as_str(), "val");
    match &row.entries[1].1 {
        Value::Num(n) => {
            assert_eq!(n.mag, NumMag::Dec { neg: false, mag: 725, scale: 1 });
            assert_eq!(n.unit.as_deref(), Some("°F"));
        },
        _ => panic!("expected a number cell"),
    }
    let text = skyspark_client::codec::encode_grid(&g);
    assert!(text.contains("72.5"));
    assert!(text.contains("2021-06-01T09:00:00-05:00"));
}

#[test]
fn his_write_bool_encodes_booleans() {
    let g = his_write_bool_req("point-2", &vec![(ts(8), true), (ts(9), false)]);
    assert_eq!(g.rows.len(), 2);
    assert!(matches!(g.rows[0].entries[1].1, Value::Bool(true)));
    assert!(matches!(g.rows[1].entries[1].1, Value::Bool(false)));
}

#[test]
fn request_grids_have_expected_shape() {
    let g = eval_req("readAll(site)");
    assert_eq!(g.cols[0].name.as_str(), "expr");
    assert_eq!(g.rows.len(), 1);

    let g = read_req("site", Some(10));
    assert_eq!(g.cols.len(), 2);
    assert_eq!(g.cols[1].name.as_str(), "limit");

    let g = read_by_ids_req(&vec![String::from("a"), String::from("b")]);
    assert_eq!(g.rows.len(), 2);

    let g = his_read_req("p", &HisReadRange::Today);
    let text = skyspark_client::codec::encode_grid(&g);
    assert!(text.contains("today"));
    let span = HisReadRange::DateSpan(
        Date { year: 2021, month: 1, day: 1 },
        Date { year: 2021, month: 2, day: 1 },
    );
    let text = skyspark_client::codec::encode_grid(&his_read_req("p", &span));
    assert!(text.contains("2021-01-01,2021-02-01"));
}

#[test]
fn read_by_ids_completeness() {
    let row = |id: &str| Dict {
        entries: vec![(tn("id"), Value::Ref { id: String::from(id), dis: None })],
    };
    let g = Grid {
        meta: Dict { entries: vec![] },
        cols: vec![Col { name: tn("id"), meta: Dict { entries: vec![] } }],
        rows: vec![row("idA")],
    };
    let ids = vec![String::from("idA"), String::from("idB")];
    let e = check_read_by_ids(&ids, &g).err().unwrap();
    assert_eq!(e.msg, "idB");
    assert!(check_read_by_ids(&vec![String::from("idA")], &g).is_ok());
}

#[test]
fn scram_proof_matches_direct_computation() {
    // The RFC 7677 example inputs: user nonce/salt/iteration count.
    let pw = b"pencil".to_vec();
    let salt = skyspark_client::crypto::b64_decode("W22ZaJ0SNY7soEsUEjb6gQ==").unwrap();
    let iters = 4096;
    let cfb = client_first_bare("user", "rOprNGfwEbeRWgbNEkqO");
    let server_first =
        "r=rOprNGfwEbeRWgbNEkqO%hvYDpWUa2RaTCAfuxFIlj)hNlF$k0,s=W22ZaJ0SNY7soEsUEjb6gQ==,i=4096";
    let cfnp = client_final_no_proof("biws", "rOprNGfwEbeRWgbNEkqO%hvYDpWUa2RaTCAfuxFIlj)hNlF$k0");
    let am = auth_message(&cfb, server_first, &cfnp);
    let proof1 = scram_client_proof(&pw, &salt, iters, &am.as_bytes().to_vec());
    let proof2 = scram_client_proof(&pw, &salt, iters, &am.as_bytes().to_vec());
    // Deterministic: two computations agree byte for byte.
    assert_eq!(proof1, proof2);
    // And the value agrees with a direct computation via the crates.
    let mut salted = [0u8; 32];
    pbkdf2::pbkdf2_hmac::<sha2::Sha256>(&pw, &salt, iters, &mut salted);
    let mut mac = <hmac::Hmac<sha2::Sha256> as KeyInit>::new_from_slice(&salted).unwrap();
    mac.update(b"Client Key");
    let client_key = mac.finalize().into_bytes();
    let stored_key = sha2::Sha256::digest(client_key);
    let mut mac = <hmac::Hmac<sha2::Sha256> as KeyInit>::new_from_slice(&stored_key).unwrap();
    mac.update(am.as_bytes());
    let sig = mac.finalize().into_bytes();
    let expect: Vec<u8> = client_key.iter().zip(sig.iter()).map(|(a, b)| a ^ b).collect();
    assert_eq!(proof1, expect);
    let fin = client_final(&cfnp, &skyspark_client::crypto::b64_encode(&proof1));
    assert!(fin.starts_with("c=biws,r="));
    assert!(fin.contains(",p="));
}

#[test]
fn server_first_parsing() {
    let r = parse_server_first("r=abc123,s=c2FsdA==,i=4096").unwrap();
    assert_eq!(r.0, "abc123");
    assert_eq!(r.1, "c2FsdA==");
    assert_eq!(r.2, 4096);
    assert!(parse_server_first("x=abc").is_none());
    assert!(parse_server_first("r=abc,s=zzz,i=").is_none());
    assert!(parse_server_first("r=abc,s=zzz,i=12x").is_none());
}

#[test]
fn lenient_offset_and_fraction_decode() {
    let text = "{\"_kind\":\"grid\",\"meta\":{},\"cols\":[{\"name\":\"when\"}],\"rows\":[{\"when\":{\"_kind\":\"dateTime\",\"val\":\"2021-01-01T00:00:00.000+00:00\",\"tz\":\"UTC\"}}]}";
    let g = skyspark_client::codec::decode_grid(text).unwrap();
    match &g.rows[0].entries[0].1 {
        Value::DateTime(dt) => {
            assert_eq!(dt.offset_min, 0);
            assert_eq!(dt.time.millis, 0);
        },
        _ => panic!("expected a timestamp"),
    }
}

#[test]
fn decode_error_carries_cell_context() {
    let text = "{\"_kind\":\"grid\",\"meta\":{},\"cols\":[{\"name\":\"x\"}],\"rows\":[{\"x\":null}]}";
    let e = skyspark_client::codec::decode_grid(text).err().unwrap();
    assert_eq!(e.row, Some(0));
    assert_eq!(e.col.as_deref(), Some("x"));
}
