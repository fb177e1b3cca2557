//! Drives the parser with a small grammar over whole source texts.

use parsing::event::Event;
use parsing::input::{Input, Token};
use parsing::layout::{Layout, LayoutKind};
use parsing::parser::Parser;
use parsing::position::Position;
use parsing::syntax::SyntaxKind;

fn classify(word: &str) -> SyntaxKind {
    let first = word.chars().next().unwrap();
    match word {
        "module" => SyntaxKind::ModuleKw,
        "where" => SyntaxKind::WhereKw,
        "instance" => SyntaxKind::InstanceKw,
        "=" => SyntaxKind::Equal,
        "(" => SyntaxKind::LeftParenthesis,
        ")" => SyntaxKind::RightParenthesis,
        _ if first == '\'' => SyntaxKind::Character,
        _ if first == '"' => SyntaxKind::Text,
        _ if first.is_ascii_digit() && word.contains('.') => SyntaxKind::Number,
        _ if first.is_ascii_digit() => SyntaxKind::Integer,
        _ if first.is_uppercase() => SyntaxKind::Upper,
        _ if first.is_lowercase() => SyntaxKind::Lower,
        _ => SyntaxKind::Operator,
    }
}

/// Splits a source text at white space and classifies each word.
fn lex(source: &str) -> Input {
    let mut tokens = Vec::new();
    let mut line = 1;
    let mut column = 1;
    let mut word: Option<(usize, usize, usize)> = None;
    for (offset, character) in source.char_indices() {
        if character.is_whitespace() {
            if let Some((start, at_line, at_column)) = word.take() {
                let kind = classify(&source[start..offset]);
                let position = Position { offset: start, line: at_line, column: at_column };
                tokens.push(Token { kind, position });
            }
        } else if word.is_none() {
            word = Some((offset, line, column));
        }
        if character == '\n' {
            line += 1;
            column = 1;
        } else {
            column += 1;
        }
    }
    if let Some((start, at_line, at_column)) = word {
        let kind = classify(&source[start..]);
        let position = Position { offset: start, line: at_line, column: at_column };
        tokens.push(Token { kind, position });
    }
    Input::new(tokens)
}

/// What a run of the grammar saw of the layout stack.
struct Watch {
    /// The deepest the layout stack has been.
    deepest: usize,
    /// The depth of the stack right after each token was consumed.
    after_consume: Vec<usize>,
    /// The answers of `group_done`, in the order they were given.
    group_done: Vec<bool>,
}

impl Watch {
    fn new() -> Watch {
        Watch { deepest: 0, after_consume: Vec::new(), group_done: Vec::new() }
    }

    fn look(&mut self, parser: &Parser) {
        self.deepest = self.deepest.max(parser.layouts().len());
    }
}

fn parse_module(parser: &mut Parser, watch: &mut Watch) {
    parser.eat(SyntaxKind::ModuleKw);
    parse_module_name(parser);
    parser.eat(SyntaxKind::WhereKw);

    assert!(!parser.is_eof());
    parser.layout_start(LayoutKind::Module);
    watch.look(parser);
    loop {
        parse_value_declaration(parser, watch);
        assert!(parser.can_poll());
        if parser.layout_done() {
            break;
        }
    }
    parser.layout_end();
}

fn parse_module_name(parser: &mut Parser) {
    parser.eat(SyntaxKind::Upper);
}

fn parse_value_declaration(parser: &mut Parser, watch: &mut Watch) {
    let mut marker = parser.start();
    loop {
        if parser.at(SyntaxKind::LeftParenthesis) {
            parser.layout_start(LayoutKind::Parenthesis);
        }
        if parser.at(SyntaxKind::RightParenthesis) {
            parser.layout_end();
        }
        watch.look(parser);
        assert!(!parser.is_eof());
        parser.consume();
        watch.after_consume.push(parser.layouts().len());
        assert!(parser.can_poll());
        let done = parser.group_done();
        watch.group_done.push(done);
        if done {
            break;
        }
    }
    assert!(marker.can_end(parser));
    marker.end(parser, SyntaxKind::ValueDeclaration);
}

fn start(kind: SyntaxKind) -> Event {
    Event::Start { kind }
}

fn token(kind: SyntaxKind) -> Event {
    Event::Token { kind }
}

/// The nesting depth before each event and after the last, or `None` where
/// a `Finish` has nothing to close.
fn depths(events: &[Event]) -> Option<Vec<usize>> {
    let mut depth = 0usize;
    let mut all = vec![depth];
    for event in events {
        match event {
            Event::Start { .. } => depth += 1,
            Event::Finish => depth = depth.checked_sub(1)?,
            _ => {}
        }
        all.push(depth);
    }
    Some(all)
}

/// Whether the log encodes a forest of finished nodes.
fn well_formed(events: &[Event]) -> bool {
    let Some(depths) = depths(events) else {
        return false;
    };
    let leaves_inside = events.iter().enumerate().all(|(i, event)| match event {
        Event::Token { .. } | Event::Error { .. } => depths[i] > 0,
        _ => true,
    });
    let committed = events.iter().all(|event| *event != start(SyntaxKind::Sentinel));
    depths[events.len()] == 0 && leaves_inside && committed
}

#[test]
fn grammar_api_test() {
    let input = lex(r"module Hello where
hello = world
  0 'a' 1.2

hello = (
world
0 
'a' 
1.2
)
  ");
    let mut parser = Parser::new(input);
    let mut watch = Watch::new();
    parse_module(&mut parser, &mut watch);

    assert!(parser.is_eof());
    assert_eq!(parser.index(), 17);
    let root = Layout { kind: LayoutKind::Root, position: Position { offset: 0, line: 1, column: 1 } };
    assert_eq!(parser.layouts(), &vec![root]);
    assert_eq!(watch.deepest, 3);
    let expected = vec![
        token(SyntaxKind::ModuleKw),
        token(SyntaxKind::Upper),
        token(SyntaxKind::WhereKw),
        start(SyntaxKind::ValueDeclaration),
        token(SyntaxKind::Lower),
        token(SyntaxKind::Equal),
        token(SyntaxKind::Lower),
        token(SyntaxKind::Integer),
        token(SyntaxKind::Character),
        token(SyntaxKind::Number),
        Event::Finish,
        start(SyntaxKind::ValueDeclaration),
        token(SyntaxKind::Lower),
        token(SyntaxKind::Equal),
        token(SyntaxKind::LeftParenthesis),
        token(SyntaxKind::Lower),
        token(SyntaxKind::Integer),
        token(SyntaxKind::Character),
        token(SyntaxKind::Number),
        token(SyntaxKind::RightParenthesis),
        Event::Finish,
    ];
    assert_eq!(parser.events(), &expected);
    assert_eq!(parser.finish(), expected);
}

#[test]
fn module_declaration_spans_its_continuation_lines() {
    let input = lex("module Hello where\nhello = world\n  0 'a' 1.2\n");
    let mut parser = Parser::new(input);
    let mut watch = Watch::new();
    parse_module(&mut parser, &mut watch);

    // Root and Module, and nothing deeper, while the declaration is parsed.
    assert_eq!(watch.deepest, 2);
    assert!(watch.after_consume.iter().all(|depth| *depth == 2));
    // The group ends at the end of the input and nowhere before.
    assert_eq!(watch.group_done, vec![false, false, false, false, false, true]);
    // One declaration node, and every token after `where` inside it.
    let events = parser.finish();
    let nodes = events.iter().filter(|event| matches!(event, Event::Start { .. })).count();
    assert_eq!(nodes, 1);
    assert_eq!(
        events,
        vec![
            token(SyntaxKind::ModuleKw),
            token(SyntaxKind::Upper),
            token(SyntaxKind::WhereKw),
            start(SyntaxKind::ValueDeclaration),
            token(SyntaxKind::Lower),
            token(SyntaxKind::Equal),
            token(SyntaxKind::Lower),
            token(SyntaxKind::Integer),
            token(SyntaxKind::Character),
            token(SyntaxKind::Number),
            Event::Finish,
        ]
    );
}

#[test]
fn parenthesis_closes_on_its_delimiter_whatever_the_column() {
    let input = lex("hello = (\nworld\n0\n'a'\n1.2\n)\n");
    let mut parser = Parser::new(input);
    let mut watch = Watch::new();
    parse_module(&mut parser, &mut watch);

    // Root, Module and Parenthesis once the opening parenthesis is reached.
    assert_eq!(watch.deepest, 3);
    // hello =            : Root, Module
    // ( world 0 'a' 1.2  : Root, Module, Parenthesis, though each of the
    //                      last four tokens stands in the module's column
    // )                  : back to Root, Module as soon as it is consumed
    assert_eq!(watch.after_consume, vec![2, 2, 3, 3, 3, 3, 3, 2]);
    assert_eq!(watch.group_done, vec![false, false, false, false, false, false, false, true]);
    assert!(well_formed(parser.events()));
    assert_eq!(parser.layouts().len(), 1);
}

#[test]
fn sibling_in_the_anchor_column_starts_a_new_declaration() {
    let input = lex("module M where\na = b\n  c\nd = e\n");
    let mut parser = Parser::new(input);
    let mut watch = Watch::new();
    parse_module(&mut parser, &mut watch);

    let declaration = |tokens: usize| {
        let mut events = vec![start(SyntaxKind::ValueDeclaration)];
        for kind in [SyntaxKind::Lower, SyntaxKind::Equal, SyntaxKind::Lower, SyntaxKind::Lower] {
            if events.len() <= tokens {
                events.push(token(kind));
            }
        }
        events.push(Event::Finish);
        events
    };
    let mut expected =
        vec![token(SyntaxKind::ModuleKw), token(SyntaxKind::Upper), token(SyntaxKind::WhereKw)];
    expected.extend(declaration(4));
    expected.extend(declaration(3));
    assert_eq!(parser.events(), &expected);
    assert_eq!(watch.group_done, vec![false, false, false, true, false, false, true]);
}

#[test]
fn finished_log_is_well_formed() {
    let input = lex("a = ( b c )\nd = e\n  f\n");
    let mut parser = Parser::new(input);
    let mut watch = Watch::new();
    parse_module(&mut parser, &mut watch);
    assert!(parser.is_eof());
    // The grammar above records its first tokens outside any node only when
    // the text starts with a module header; here every token has a node.
    assert!(well_formed(parser.events()));
    assert_eq!(depths(parser.events()).unwrap().into_iter().max(), Some(1));
}
