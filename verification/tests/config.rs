use quelay::bandwidth::{bandwidth_bps, check_bandwidth, split_bandwidth};
use quelay::config::{BandwidthUnit, Config, CongestionAlgo};
use quelay::gate::{gate_write, GateDecision};

fn parse_bandwidth(s: &str) -> Result<u64, String> {
    let b = split_bandwidth(s)?;
    let value: Option<f64> = b.number.parse().ok();
    let is_positive = value.is_some_and(|v| v > 0.0);
    let unit = check_bandwidth(&b, value.is_some(), is_positive)?;
    bandwidth_bps(&b, (value.unwrap() * unit.multiplier() as f64) as u64)
}

fn display(cfg: &Config) -> String {
    match (cfg.bw_cap_bps, cfg.bw_cap_unit()) {
        (Some(bps), Some(u)) => format!("{:.1} {u:?}", bps as f64 / u.multiplier() as f64),
        _ => "uncapped".to_string(),
    }
}

#[test]
fn bw_cap_parses_basic_units() {
    assert_eq!(parse_bandwidth("10Mbps"), Ok(10_000_000));
    assert_eq!(parse_bandwidth("500Kbps"), Ok(500_000));
    assert_eq!(parse_bandwidth("1.5Gbps"), Ok(1_500_000_000));
}

#[test]
fn bw_cap_parses_case_and_whitespace() {
    assert_eq!(parse_bandwidth("10 mbps"), Ok(10_000_000));
    assert_eq!(parse_bandwidth("10MBPS"), Ok(10_000_000));
}

#[test]
fn bw_cap_rejects_missing_unit() {
    assert_eq!(
        parse_bandwidth("10"),
        Err("missing unit in '10' — use Kbps, Mbps, Gbps".to_string())
    );
}

#[test]
fn bw_cap_rejects_invalid_number() {
    assert_eq!(
        parse_bandwidth("abcMbps"),
        Err("invalid number ''".to_string())
    );
}

#[test]
fn bw_cap_rejects_unknown_unit() {
    assert_eq!(
        parse_bandwidth("10Foo"),
        Err("unknown unit 'Foo' — use Kbps, Mbps, Gbps".to_string())
    );
}

#[test]
fn bw_cap_rejects_zero() {
    assert_eq!(
        parse_bandwidth("0Mbps"),
        Err("bandwidth must be greater than zero, got '0Mbps'".to_string())
    );
}

#[test]
fn bandwidth_must_be_greater_than_zero() {
    for text in ["-5Mbps", "-0.5 Gbps", "-0Kbps", "0.0001Kbps"] {
        assert_eq!(
            parse_bandwidth(text),
            Err(format!("bandwidth must be greater than zero, got '{text}'"))
        );
    }
    assert_eq!(parse_bandwidth("0.001Kbps"), Ok(1));
    assert_eq!(
        parse_bandwidth("-5Foo"),
        Err("unknown unit 'Foo' — use Kbps, Mbps, Gbps".to_string())
    );
}

#[test]
fn white_space_and_letters_are_those_of_unicode() {
    let spaces = "\u{9}\u{a}\u{b}\u{c}\u{d}\u{20}\u{85}\u{a0}\u{1680}\u{2000}\u{2001}\u{2002}\
        \u{2003}\u{2004}\u{2005}\u{2006}\u{2007}\u{2008}\u{2009}\u{200a}\u{2028}\u{2029}\u{202f}\
        \u{205f}\u{3000}";
    assert_eq!(spaces.chars().count(), 25);
    for code in 0..=0xFFFFu32 {
        let Some(c) = char::from_u32(code) else {
            continue;
        };
        let b = split_bandwidth(&format!("{c}1Mbps")).unwrap();
        assert_eq!(b.whole == "1Mbps", spaces.contains(c), "{code:x}");
        if code < 0x80 {
            assert_eq!(b.number.is_empty(), c.is_ascii_alphabetic(), "{code:x}");
        }
    }
}

#[test]
fn bandwidth_is_split_at_the_first_letter() {
    let b = split_bandwidth("\t 12.5  Kbps \n").unwrap();
    assert_eq!(b.whole, "12.5  Kbps");
    assert_eq!(b.number, "12.5");
    assert_eq!(b.unit, "Kbps");
    let b = split_bandwidth("1e3Mbps").unwrap();
    assert_eq!((b.number.as_str(), b.unit.as_str()), ("1", "e3Mbps"));
    let b = split_bandwidth("\u{2003}7µbps").unwrap();
    assert_eq!((b.number.as_str(), b.unit.as_str()), ("7", "µbps"));
    assert_eq!(
        split_bandwidth("   ").unwrap_err(),
        "missing unit in '' — use Kbps, Mbps, Gbps"
    );
}

#[test]
fn units_have_multipliers() {
    assert_eq!(BandwidthUnit::Kbps.multiplier(), 1_000);
    assert_eq!(BandwidthUnit::Mbps.multiplier(), 1_000_000);
    assert_eq!(BandwidthUnit::Gbps.multiplier(), 1_000_000_000);
}

#[test]
fn validate_rejects_invalid_chunk_size() {
    let mut cfg = Config::default();
    cfg.chunk_size_bytes = 0;
    assert!(cfg.validate().is_err());

    cfg.chunk_size_bytes = 70_000;
    assert!(cfg.validate().is_err());
    assert_eq!(
        cfg.validate(),
        Err("--chunk-size-bytes must be 1..=65535, got 70000".to_string())
    );
}

#[test]
fn validate_rejects_zero_spool_capacity() {
    let mut cfg = Config::default();
    cfg.spool_capacity_bytes = 0;
    assert!(cfg.validate().is_err());
    assert_eq!(
        cfg.validate(),
        Err("--spool-capacity-bytes must be > 0".to_string())
    );
}

#[test]
fn validate_accepts_valid_config() {
    let cfg = Config::default();
    assert!(cfg.validate().is_ok());
    let edge = Config {
        chunk_size_bytes: 65_535,
        spool_capacity_bytes: 1,
        ..cfg
    };
    assert!(edge.validate().is_ok());
}

#[test]
fn bw_cap_display_uncapped() {
    let cfg = Config::default();
    assert_eq!(display(&cfg), "uncapped");
}

#[test]
fn bw_cap_display_thresholds() {
    let mut cfg = Config::default();

    cfg.bw_cap_bps = Some(500_000);
    assert_eq!(display(&cfg), "500.0 Kbps");

    cfg.bw_cap_bps = Some(1_000_000);
    assert_eq!(display(&cfg), "1.0 Mbps");

    cfg.bw_cap_bps = Some(1_500_000_000);
    assert_eq!(display(&cfg), "1.5 Gbps");
}

#[test]
fn default_congestion_control_is_loss_based() {
    assert_eq!(CongestionAlgo::default(), CongestionAlgo::NewReno);
    assert_eq!(
        CongestionAlgo::Bbr.for_transport(),
        quelay::quic::CongestionAlgo::Bbr
    );
    assert_eq!(
        quelay::quic::CongestionAlgo::default(),
        quelay::quic::CongestionAlgo::NewReno
    );
}

#[test]
fn link_disabled_returns_error() {
    assert_eq!(gate_write(false, 1024, None), GateDecision::LinkDisabled);
}

#[test]
fn link_disabled_mid_transfer() {
    assert_eq!(gate_write(true, 1024, None), GateDecision::Forward(1024));
    assert_eq!(gate_write(false, 1024, None), GateDecision::LinkDisabled);
}

#[test]
fn rate_limit_shortens_or_delays_a_write() {
    assert_eq!(gate_write(true, 1024, Some(0)), GateDecision::Pending);
    assert_eq!(gate_write(true, 1024, Some(300)), GateDecision::Forward(300));
    assert_eq!(gate_write(false, 1024, Some(300)), GateDecision::LinkDisabled);
}

#[test]
fn pending_limit_is_capped() {
    let mut cfg = Config::default();
    assert_eq!(cfg.pending_limit(), 100);
    cfg.max_pending = 7;
    assert_eq!(cfg.pending_limit(), 7);
    cfg.max_pending = 500;
    assert_eq!(cfg.pending_limit(), 100);
}
