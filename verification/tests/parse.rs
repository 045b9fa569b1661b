use lootpool::draw::u128_to_be_bytes;
use lootpool::parse::{parse_description, parse_i32_bytes};

#[test]
fn parse_i32_matches_std() {
    let cases = [
        "", "0", "-0", "+0", "+", "-", "12", "+12", "-12", "007", "2147483647", "2147483648",
        "-2147483648", "-2147483649", "99999999999999999999", "-99999999999", "1a", "a1", " 1",
        "1 ", "+-1", "-+1", "--1", "100", "55", "1_000", "١", "42\u{0}",
    ];
    for c in cases.iter() {
        assert_eq!(parse_i32_bytes(c.as_bytes()), c.parse::<i32>().ok(), "input {:?}", c);
    }
}

#[test]
fn parse_description_fields() {
    let p = parse_description("1942-09-06%%100%%55%%creator").unwrap();
    assert_eq!(p.trade_ready, "1942-09-06");
    assert_eq!(p.value, 100);
    assert_eq!(p.owner, "55");
    let p = parse_description("d%%-7%%owner").unwrap();
    assert_eq!((p.trade_ready.as_str(), p.value, p.owner.as_str()), ("d", -7, "owner"));
    let p = parse_description("%%1%%").unwrap();
    assert_eq!((p.trade_ready.as_str(), p.value, p.owner.as_str()), ("", 1, ""));
}

#[test]
fn parse_description_matches_split() {
    let cases = [
        "a%%1%%b", "a%%%1%%b", "a%%%%1%%b", "%%%%%%", "é%%12%%ü%%x", "a%%1", "a", "a%%x%%b",
        "a%%1%b", "a%1%%b%%c", "日本%%3%%語", "a%%+4%%b%%c%%d",
    ];
    for c in cases.iter() {
        let mut it = c.split("%%");
        let f0 = it.next();
        let f1 = it.next();
        let f2 = it.next();
        let expected = match (f0, f1, f2) {
            (Some(a), Some(v), Some(o)) => {
                v.parse::<i32>().ok().map(|v| (a.to_string(), v, o.to_string()))
            }
            _ => None,
        };
        let got = parse_description(c).map(|p| (p.trade_ready, p.value, p.owner));
        assert_eq!(got, expected, "input {:?}", c);
    }
}

#[test]
fn description_round_trip() {
    for (d, v, o) in [("2021-05-05", 12, "alice"), ("", -3, ""), ("x", 0, "bob")] {
        let text = format!("{}%%{}%%{}", d, v, o);
        let p = parse_description(&text).unwrap();
        assert_eq!((p.trade_ready.as_str(), p.value, p.owner.as_str()), (d, v, o));
    }
}

#[test]
fn be_bytes_match_std() {
    for x in [0u128, 1, 123456, u128::MAX, 0x0102030405060708090a0b0c0d0e0f10] {
        assert_eq!(u128_to_be_bytes(x), x.to_be_bytes().to_vec());
    }
}
