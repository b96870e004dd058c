use skyspark_client::codec::{decode_grid, encode_grid};
use skyspark_client::tagname::TagName;
use skyspark_client::value::{Col, Date, Dict, Grid, NumMag, Number, Time, Value};

fn tn(s: &str) -> TagName {
    TagName::parse(s).unwrap()
}

#[test]
fn tag_name_grammar() {
    assert!(TagName::parse("siteRef").is_some());
    assert!(TagName::parse("a1_b2").is_some());
    assert!(TagName::parse("2cool").is_none());
    assert!(TagName::parse("Site").is_none());
    assert!(TagName::parse("").is_none());
    assert!(TagName::parse("bad-char").is_none());
}

#[test]
fn grid_round_trip() {
    let meta = Dict {
        entries: vec![(tn("dis"), Value::Str(String::from("Site list")))],
    };
    let cols = vec![
        Col { name: tn("id"), meta: Dict { entries: vec![] } },
        Col { name: tn("temp"), meta: Dict { entries: vec![] } },
        Col { name: tn("when"), meta: Dict { entries: vec![] } },
    ];
    let rows = vec![Dict {
        entries: vec![
            (tn("id"), Value::Ref { id: String::from("abc-123"), dis: None }),
            (
                tn("temp"),
                Value::Num(Number {
                    mag: NumMag::Dec { neg: false, mag: 725, scale: 1 },
                    unit: Some(String::from("°F")),
                }),
            ),
            (tn("when"), Value::Date(Date { year: 2021, month: 2, day: 28 })),
        ],
    }];
    let g = Grid { meta, cols, rows };
    let text = encode_grid(&g);
    assert!(text.starts_with("{\"_kind\":\"grid\""));
    let g2 = decode_grid(&text).unwrap();
    let text2 = encode_grid(&g2);
    assert_eq!(text, text2);
}

#[test]
fn empty_grid_round_trip() {
    let g = Grid {
        meta: Dict { entries: vec![] },
        cols: vec![],
        rows: vec![],
    };
    let text = encode_grid(&g);
    assert_eq!(text, "{\"_kind\":\"grid\",\"meta\":{},\"cols\":[],\"rows\":[]}");
    let g2 = decode_grid(&text).unwrap();
    assert_eq!(encode_grid(&g2), text);
}

#[test]
fn number_and_time_cells() {
    let g = Grid {
        meta: Dict { entries: vec![] },
        cols: vec![Col { name: tn("val"), meta: Dict { entries: vec![] } }],
        rows: vec![
            Dict {
                entries: vec![(
                    tn("val"),
                    Value::Num(Number {
                        mag: NumMag::Dec { neg: true, mag: 5, scale: 0 },
                        unit: None,
                    }),
                )],
            },
            Dict {
                entries: vec![(
                    tn("val"),
                    Value::Time(Time { hour: 9, minute: 5, second: 0, millis: 0 }),
                )],
            },
            Dict { entries: vec![(tn("val"), Value::Bool(true))] },
        ],
    };
    let text = encode_grid(&g);
    assert!(text.contains("-5"));
    assert!(text.contains("09:05:00"));
    let g2 = decode_grid(&text).unwrap();
    assert_eq!(encode_grid(&g2), text);
}

#[test]
fn malformed_text_rejected() {
    assert!(decode_grid("not json").is_err());
    assert!(decode_grid("{\"_kind\":\"grid\"}").is_err());
    assert!(decode_grid("[1,2,3]").is_err());
    assert!(decode_grid("{\"_kind\":\"grid\",\"meta\":{},\"cols\":[],\"rows\":[{\"x\":1}]}").is_err());
}
