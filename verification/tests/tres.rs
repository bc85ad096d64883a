use nchctop::tres::{gigabytes, memory, resource, value};

const SPEC: &str = "cpu=96,mem=4800G,node=3,billing=96,gres/gpu=24";

#[test]
fn reads_a_value_by_key() {
    assert_eq!(value(SPEC, "cpu"), Some("96"));
    assert_eq!(value(SPEC, "gres/gpu"), Some("24"));
}

/// A job that asked for no GPUs has no gres/gpu entry at all, rather than
/// a zero.
#[test]
fn reports_a_missing_key() {
    assert_eq!(value("cpu=2,mem=16G,node=1", "gres/gpu"), None);
}

#[test]
fn converts_memory_to_gigabytes() {
    assert_eq!(gigabytes("90000M"), "88G");
    assert_eq!(gigabytes("200G"), "200G");
    assert_eq!(gigabytes("2T"), "2048G");
    // Anything it does not recognise passes through rather than vanishing.
    assert_eq!(gigabytes("unknown"), "unknown");
    assert_eq!(gigabytes(""), "");
}

#[test]
fn the_first_entry_for_a_key_answers() {
    assert_eq!(value("a,cpu=1,cpu=2", "cpu"), Some("1"));
    assert_eq!(value("x=y=z", "x"), Some("y=z"));
    assert_eq!(value("cpu", "cpu"), None);
    assert_eq!(value("", ""), None);
    assert_eq!(value("=v", ""), Some("v"));
}

/// What floating point makes of an amount.
fn floating(mem: &str) -> String {
    let Some((amount, unit)) = mem.split_at_checked(mem.len().saturating_sub(1)) else {
        return mem.to_string();
    };
    let Ok(amount) = amount.parse::<f64>() else {
        return mem.to_string();
    };
    let gb = match unit {
        "K" => amount / (1024.0 * 1024.0),
        "M" => amount / 1024.0,
        "G" => amount,
        "T" => amount * 1024.0,
        _ => return mem.to_string(),
    };
    format!("{}G", gb.round())
}

/// The same numbers a double-precision conversion gives.
#[test]
fn agrees_with_double_precision() {
    for unit in ["K", "M", "G", "T", "P", "", "é"] {
        for amount in [
            "0", "1", "0.5", ".5", "1.5", "2.5", "512", "511.999999999", "512.000000001", "1536",
            "524288", "524287", "999999999999", "123456.789012", "-0.4", "-1.5", "+7", "7.", "00.10",
            "1234567890123", "1e3", "1E3", "1e-3", "-1.5e+2", "12345678901234567890",
            "0.49999999999999994", "0.499999999999999999999999999999", "2.4999999999999999999",
            "9007199254740991", "9007199254740992", "9007199254740993", "9007199254740994",
            "9007199254740995", "1152921504606846976", "18446744073709551616", "1e22", "1e23",
            "9.999999999999999e22", "123456789012345678901234567890123456789",
            "1.7976931348623157e308", "1.7976931348623158e308", "1.7976931348623159e308", "1e309",
            "-1e309", "1e305", "1e306", "5e-324", "1e-400", "-1e-400", "inf", "-Infinity", "nan",
            "-nan", "NaN", "+INF", "", "-", "+", ".", "e5", "1e", "1e+", "1e5.5", "1.2.3", "1 ", " 1",
            "infinit", "nane1", "unknown",
            "1e999999999999999999999999999999999999999999",
            "1e-999999999999999999999999999999999999999999",
            "0e999999999999999999999999999999999999999999",
            "0.00000000000000000000000000000000000000000000000001e52",
        ] {
            let mem = format!("{amount}{unit}");
            assert_eq!(gigabytes(&mem), floating(&mem), "{mem}");
        }
    }
}

#[test]
fn agrees_on_numbers_of_every_length() {
    let mut seed: u64 = 1;
    let mut next = || {
        seed = seed.wrapping_mul(6364136223846793005).wrapping_add(1442695040888963407);
        seed >> 11
    };
    for _ in 0..3000 {
        let digits: String = (0..1 + next() % 40).map(|_| char::from(b'0' + (next() % 10) as u8)).collect();
        let point = next() as usize % (digits.len() + 1);
        let exponent = next() as i64 % 40 - 20;
        let unit = ["K", "M", "G", "T"][next() as usize % 4];
        let mem = format!("{}.{}e{exponent}{unit}", &digits[..point], &digits[point..]);
        let once = gigabytes(&mem);
        assert_eq!(once, floating(&mem), "{mem}");
        assert_eq!(gigabytes(&once), once, "{mem}");
    }
}

#[test]
fn a_column_shows_a_dash_for_nothing() {
    assert_eq!(resource(SPEC, "node"), "3");
    assert_eq!(resource(SPEC, "fs/disk"), "-");
    assert_eq!(memory(SPEC), "4800G");
    assert_eq!(memory("cpu=1"), "-");
}

#[test]
fn the_same_amount_reads_the_same_in_every_unit() {
    assert_eq!(gigabytes("2097152K"), "2G");
    assert_eq!(gigabytes("2048M"), "2G");
    assert_eq!(gigabytes("2G"), "2G");
    assert_eq!(gigabytes("2T"), gigabytes("2048G"));
    for mem in ["1536M", "-0.4G", "999999999999T", "1e3M", "unknown", ""] {
        let once = gigabytes(mem);
        assert_eq!(gigabytes(&once), once, "{mem}");
    }
}

/// Every number in one of the units ends in `G`, however it is written.
#[test]
fn every_number_comes_out_in_gigabytes() {
    assert_eq!(gigabytes("1234567890123M"), "1205632705G");
    assert_eq!(gigabytes("1e3M"), "1G");
    assert_eq!(gigabytes("1e23G"), "100000000000000000000000G");
    assert_eq!(gigabytes("infT"), "infG");
    assert_eq!(gigabytes("nanK"), "NaNG");
    assert_eq!(gigabytes("1e400K"), "infG");
}
