use gorilla::lexer::Lexer;
use gorilla::tokens::Data;

#[test]
fn test_lexer() {
    let mut lexer = Lexer::new("23");
    let res = lexer.next_token();
    assert_eq!(res._data, Data::Illegal)
}

#[test]
fn the_reader_walks_the_text() {
    let mut lexer = Lexer::new("2 \n3");
    assert_eq!((lexer.ch, lexer.pos, lexer.read_pos), ('\0', 0, 0));
    let t = lexer.next_token();
    assert_eq!((t._line, t._char), (0, 0));
    assert_eq!((lexer.ch, lexer.pos, lexer.read_pos), ('2', 0, 1));
    lexer.next_token();
    assert_eq!((lexer.ch, lexer.pos, lexer.read_pos), (' ', 1, 2));
    lexer.next_token();
    assert_eq!((lexer.ch, lexer.pos, lexer.read_pos), ('\0', 4, 5));
    lexer.read_char();
    assert_eq!((lexer.ch, lexer.pos, lexer.read_pos), ('\0', 5, 6));
}
