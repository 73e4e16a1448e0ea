use loxvm::globals::Globals;
use loxvm::opcode::{from_u8, Opcode};
use loxvm::precedence::Precedence;
use loxvm::token::{InfixAction, PrefixAction, TokenType};
use loxvm::value::Value;

#[test]
fn opcode_bytes_round_trip() {
    for b in 0u8..=27 {
        let op = from_u8(b);
        assert_ne!(op, Opcode::Unknown);
        assert_eq!(op.to_u8(), b);
    }
    assert_eq!(from_u8(12), Opcode::Equal);
    assert_eq!(from_u8(27), Opcode::Jump);
}

#[test]
fn out_of_range_bytes_decode_to_unknown() {
    for b in 28u8..=255 {
        assert_eq!(from_u8(b), Opcode::Unknown);
    }
}

#[test]
fn precedence_levels_are_ordered() {
    assert_eq!(Precedence::Lowest.level(), 0);
    assert_eq!(Precedence::Term.level(), 6);
    assert_eq!(Precedence::Factor.level(), 7);
    assert_eq!(Precedence::Term.next(), Precedence::Factor);
    assert_eq!(Precedence::Primary.next(), Precedence::Primary);
    assert!(Precedence::Term.level() < Precedence::Factor.level());
}

#[test]
fn token_kind_indices_are_dense() {
    assert_eq!(TokenType::LeftParen.to_usize(), 0);
    assert_eq!(TokenType::Number(5).to_usize(), TokenType::Number(9).to_usize());
    assert_eq!(TokenType::Identifier("x".to_string()).to_usize(), 19);
    assert_eq!(TokenType::Error("e".to_string()).to_usize(), 38);
    assert_eq!(TokenType::Percent.to_usize(), 39);
    assert_eq!(TokenType::Eof.to_usize(), 42);
    assert_ne!(TokenType::Plus.to_usize(), TokenType::Minus.to_usize());
}

#[test]
fn parse_rules() {
    let minus = TokenType::Minus.rule();
    assert_eq!(minus.prefix, Some(PrefixAction::Unary));
    assert_eq!(minus.infix, Some(InfixAction::Binary));
    assert_eq!(minus.precedence, Precedence::Term);
    assert_eq!(TokenType::Star.rule().precedence, Precedence::Factor);
    assert_eq!(TokenType::Str("s".to_string()).rule().prefix, Some(PrefixAction::Str));
    let eof = TokenType::Eof.rule();
    assert_eq!(eof.prefix, None);
    assert_eq!(eof.infix, None);
    assert_eq!(eof.precedence, Precedence::Lowest);
}

#[test]
fn truthiness() {
    assert!(!Value::Nil.is_truthy());
    assert!(!Value::Bool(false).is_truthy());
    assert!(Value::Bool(true).is_truthy());
    assert!(Value::Number(0.0f64.to_bits()).is_truthy());
    assert!(Value::Str(String::new()).is_truthy());
}

#[test]
fn globals_table_overwrites() {
    let mut g = Globals::new();
    assert!(g.get(&"a".to_string()).is_none());
    g.set("a".to_string(), Value::Bool(true));
    g.set("b".to_string(), Value::Nil);
    g.set("a".to_string(), Value::Bool(false));
    assert!(matches!(g.get(&"a".to_string()), Some(Value::Bool(false))));
    assert!(matches!(g.get(&"b".to_string()), Some(Value::Nil)));
}
