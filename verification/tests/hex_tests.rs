use rvord::hex::HexParseError;
use rvord::hex::PredSuccError;
use rvord::hex::RegParseError;
use rvord::hex::from_hex;
use rvord::hex::parse_pred_succ;
use rvord::hex::parse_reg;
use rvord::hex::u32_to_hex;
use rvord::hex::upper_imm20_to_hex;

#[test]
fn from_hex_parses_plain_numbers() {
    assert_eq!(from_hex("#0", 32), Ok(0));
    assert_eq!(from_hex("#1F'FF", 32), Ok(0x1FFF));
    assert_eq!(from_hex("#DEAD_BEEF", 32), Ok(0xDEAD_BEEF));
    assert_eq!(from_hex("#dead'beef", 32), Ok(0xDEAD_BEEF));
    assert_eq!(from_hex("#00000001", 32), Ok(1));
    // Grouping characters alone leave the value zero.
    assert_eq!(from_hex("#'", 32), Ok(0));
}

#[test]
fn from_hex_negates_in_twos_complement() {
    assert_eq!(from_hex("-#7FF", 12), Ok(0x801));
    assert_eq!(from_hex("-#1", 12), Ok(0xFFF));
    // The magnitude must stay under half the range: the boundary value
    // is rejected.
    assert_eq!(from_hex("-#800", 12), Err(HexParseError::TooLargeToNegate));
    assert_eq!(from_hex("-#0", 12), Ok(0));
    assert_eq!(from_hex("-#7F", 8), Ok(0x81));
}

#[test]
fn from_hex_rejects_bad_literals() {
    assert_eq!(from_hex("12", 32), Err(HexParseError::MissingHash));
    assert_eq!(from_hex("", 32), Err(HexParseError::MissingHash));
    assert_eq!(from_hex("#", 32), Err(HexParseError::Empty));
    assert_eq!(from_hex("-#", 12), Err(HexParseError::Empty));
    assert_eq!(from_hex("#1G", 32), Err(HexParseError::InvalidDigit('G')));
    assert_eq!(from_hex("#10", 4), Err(HexParseError::TooWide));
    assert_eq!(from_hex("#1000", 12), Err(HexParseError::TooWide));
    assert_eq!(from_hex("-#80", 8), Err(HexParseError::TooLargeToNegate));
}

#[test]
fn hex_rendering_matches_the_fixed_format() {
    assert_eq!(u32_to_hex(0xDEAD_BEEF), "#DEAD'BEEF");
    assert_eq!(u32_to_hex(0), "#0000'0000");
    assert_eq!(u32_to_hex(0x8000_0000), "#8000'0000");
    assert_eq!(upper_imm20_to_hex(0x12345), "#1234'5");
    assert_eq!(upper_imm20_to_hex(0), "#0000'0");
}

#[test]
fn from_hex_round_trips_rendered_words() {
    for &x in &[0u32, 1, 0x41, 0x8000_0000, 0xFFFF_FFFF, 0xDEAD_BEEF] {
        assert_eq!(from_hex(&u32_to_hex(x), 32), Ok(x));
    }
}

#[test]
fn parse_reg_accepts_aliases_and_numbers() {
    assert_eq!(parse_reg("zero"), Ok(0));
    assert_eq!(parse_reg("ra"), Ok(1));
    assert_eq!(parse_reg("sp"), Ok(2));
    assert_eq!(parse_reg("gp"), Ok(3));
    assert_eq!(parse_reg("tp"), Ok(4));
    assert_eq!(parse_reg("fp"), Ok(8));
    assert_eq!(parse_reg("x0"), Ok(0));
    assert_eq!(parse_reg("x31"), Ok(31));
    assert_eq!(parse_reg("x007"), Ok(7));
    assert_eq!(parse_reg("t0"), Ok(5));
    assert_eq!(parse_reg("t2"), Ok(7));
    assert_eq!(parse_reg("t3"), Ok(28));
    assert_eq!(parse_reg("t6"), Ok(31));
    assert_eq!(parse_reg("s0"), Ok(8));
    assert_eq!(parse_reg("s1"), Ok(9));
    assert_eq!(parse_reg("s2"), Ok(18));
    assert_eq!(parse_reg("s11"), Ok(27));
    assert_eq!(parse_reg("a0"), Ok(10));
    assert_eq!(parse_reg("a7"), Ok(17));
}

#[test]
fn parse_reg_rejects_bad_names() {
    assert_eq!(parse_reg("q1"), Err(RegParseError::BadPrefix('q')));
    assert_eq!(parse_reg("x1b"), Err(RegParseError::BadDigit('b')));
    assert_eq!(parse_reg("x32"), Err(RegParseError::NoSuchRegister));
    assert_eq!(parse_reg("t7"), Err(RegParseError::NoSuchRegister));
    assert_eq!(parse_reg("s12"), Err(RegParseError::NoSuchRegister));
    assert_eq!(parse_reg("a8"), Err(RegParseError::NoSuchRegister));
}

#[test]
fn parse_pred_succ_builds_the_mask() {
    assert_eq!(parse_pred_succ(""), Ok(0));
    assert_eq!(parse_pred_succ("w"), Ok(1));
    assert_eq!(parse_pred_succ("r"), Ok(2));
    assert_eq!(parse_pred_succ("rw"), Ok(3));
    assert_eq!(parse_pred_succ("iorw"), Ok(0xF));
    assert_eq!(parse_pred_succ("x"), Err(PredSuccError::BadChar('x')));
    assert_eq!(parse_pred_succ("rr"), Err(PredSuccError::Duplicate('r')));
}
