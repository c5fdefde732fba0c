use lox_core::token::TokenType;
use lox_core::vm::VM;

fn scanner_for(src: &str) -> VM {
    let mut vm = VM::new(false);
    vm.source = src.to_string();
    vm.start = 0;
    vm.current = 0;
    vm.line = 1;
    vm
}

#[test]
fn keyword_boundary_identifier() {
    let mut vm = scanner_for("forest\0");
    let t = vm.scan_token();
    assert_eq!(t.variant, TokenType::Identifier);
    assert_eq!(t.length, 6);
    assert_eq!(t.start, 0);
    let eof = vm.scan_token();
    assert_eq!(eof.variant, TokenType::Eof);
}

#[test]
fn keyword_boundary_keyword() {
    let mut vm = scanner_for("for\0");
    let t = vm.scan_token();
    assert_eq!(t.variant, TokenType::For);
    assert_eq!(t.length, 3);
}

#[test]
fn all_keywords() {
    let src = "and class else false for fun if nil or print return super this true var while\0";
    let mut vm = scanner_for(src);
    let expected = [
        TokenType::And,
        TokenType::Class,
        TokenType::Else,
        TokenType::False,
        TokenType::For,
        TokenType::Fun,
        TokenType::If,
        TokenType::Nil,
        TokenType::Or,
        TokenType::Print,
        TokenType::Return,
        TokenType::Super,
        TokenType::This,
        TokenType::True,
        TokenType::Var,
        TokenType::While,
    ];
    for kind in expected {
        let t = vm.scan_token();
        assert_eq!(t.variant, kind);
    }
    assert_eq!(vm.scan_token().variant, TokenType::Eof);
}

#[test]
fn two_character_operators() {
    let cases = [
        ("!=\0", TokenType::BangEqual, 2),
        ("!\0", TokenType::Bang, 1),
        ("<=\0", TokenType::LessEqual, 2),
        ("<\0", TokenType::Less, 1),
        (">=\0", TokenType::GreaterEqual, 2),
        (">\0", TokenType::Greater, 1),
        ("==\0", TokenType::EqualEqual, 2),
        ("=\0", TokenType::Equal, 1),
    ];
    for (src, kind, length) in cases {
        let mut vm = scanner_for(src);
        let t = vm.scan_token();
        assert_eq!(t.variant, kind);
        assert_eq!(t.length, length);
        assert_eq!(vm.scan_token().variant, TokenType::Eof);
    }
}

#[test]
fn punctuation() {
    let mut vm = scanner_for("(){};,.-+/*\0");
    let expected = [
        TokenType::LeftParen,
        TokenType::RightParen,
        TokenType::LeftBrace,
        TokenType::RightBrace,
        TokenType::Semicolon,
        TokenType::Comma,
        TokenType::Dot,
        TokenType::Minus,
        TokenType::Plus,
        TokenType::Slash,
        TokenType::Star,
    ];
    for kind in expected {
        let t = vm.scan_token();
        assert_eq!(t.variant, kind);
        assert_eq!(t.length, 1);
    }
    assert_eq!(vm.scan_token().variant, TokenType::Eof);
}

#[test]
fn unterminated_string() {
    let mut vm = scanner_for("\"abc\0");
    let t = vm.scan_token();
    assert_eq!(t.variant, TokenType::Error);
    assert_eq!(t.message, "Unterminated String");
    assert_eq!(t.line, 1);
    assert_eq!(t.length, "Unterminated String".len());
}

#[test]
fn terminated_string() {
    let mut vm = scanner_for("\"hi\"\0");
    let t = vm.scan_token();
    assert_eq!(t.variant, TokenType::Str);
    assert_eq!(t.start, 0);
    assert_eq!(t.length, 4);
    assert_eq!(t.line, 1);
}

#[test]
fn string_spanning_lines_reports_end_line() {
    let mut vm = scanner_for("\"a\nb\"\0");
    let t = vm.scan_token();
    assert_eq!(t.variant, TokenType::Str);
    assert_eq!(t.line, 2);
}

#[test]
fn comment_skipping() {
    let mut vm = scanner_for("// comment\n123\0");
    let t = vm.scan_token();
    assert_eq!(t.variant, TokenType::Number);
    assert_eq!(t.line, 2);
    assert_eq!(t.length, 3);
    assert_eq!(vm.scan_token().variant, TokenType::Eof);
}

#[test]
fn line_tracking() {
    let mut vm = scanner_for("\n\n\nfoo\0");
    let t = vm.scan_token();
    assert_eq!(t.variant, TokenType::Identifier);
    assert_eq!(t.line, 4);
}

#[test]
fn numeric_literal_with_fraction() {
    let mut vm = scanner_for("12.34\0");
    let t = vm.scan_token();
    assert_eq!(t.variant, TokenType::Number);
    assert_eq!(t.start, 0);
    assert_eq!(t.length, 5);
}

#[test]
fn numeric_literal_trailing_dot_left_for_next_scan() {
    let mut vm = scanner_for("12.\0");
    let t = vm.scan_token();
    assert_eq!(t.variant, TokenType::Number);
    assert_eq!(t.length, 2);
    let dot = vm.scan_token();
    assert_eq!(dot.variant, TokenType::Dot);
    assert_eq!(vm.scan_token().variant, TokenType::Eof);
}

#[test]
fn unexpected_character() {
    let mut vm = scanner_for("@\0");
    let t = vm.scan_token();
    assert_eq!(t.variant, TokenType::Error);
    assert_eq!(t.message, "Unexpected character.");
    assert_eq!(t.line, 1);
}

#[test]
fn whitespace_does_not_count_lines() {
    let mut vm = scanner_for("  \t\r x\0");
    let t = vm.scan_token();
    assert_eq!(t.variant, TokenType::Identifier);
    assert_eq!(t.line, 1);
    assert_eq!(t.start, 5);
}
