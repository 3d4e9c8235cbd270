use lib::frontend::lexer::{Keyword, Lexer, Operator, Token, TokenType};
use lib::frontend::parser::Parser;
use lib::frontend::typecheck::type_program;
use lib::frontend::typeast::{PrimType, TypeDef};

fn lex_all(input: &str) -> Vec<Token> {
    let mut lex = Lexer::new("filename.tc".to_string(), input.to_string());
    let mut tokens: Vec<Token> = vec![];
    loop {
        let token = lex.get_token().unwrap();
        tokens.push(token);
        if tokens.last().unwrap().tok == TokenType::Eof {
            break;
        }
    }
    tokens
}

#[test]
fn lexer_test() {
    let input = "int main() {\nint x = 1 + 33; -1; 'a' if else while char(( _a -52 ))} 52++";
    let tokens = lex_all(input);
    println!("{:?}", tokens.iter().map(|x| x.tok.clone()).collect::<Vec<TokenType>>());
    let correct: Vec<TokenType> = vec![
        Keyword::Int.into_token(),
        TokenType::Ident("main".to_string()),
        TokenType::LeftBrac,
        TokenType::RightBrac,
        TokenType::LeftCurly,
        Keyword::Int.into_token(),
        TokenType::Ident("x".to_string()),
        Operator::Assign.into_token(),
        TokenType::Int(1),
        Operator::Add.into_token(),
        TokenType::Int(33),
        TokenType::Semicol,
        Operator::Sub.into_token(),
        TokenType::Int(1),
        TokenType::Semicol,
        TokenType::Char('a'),
        Keyword::If.into_token(),
        Keyword::Else.into_token(),
        Keyword::While.into_token(),
        Keyword::Char.into_token(),
        TokenType::LeftBrac,
        TokenType::LeftBrac,
        TokenType::Ident("_a".to_string()),
        Operator::Sub.into_token(),
        TokenType::Int(52),
        TokenType::RightBrac,
        TokenType::RightBrac,
        TokenType::RightCurly,
        TokenType::Int(52),
        Operator::Inc.into_token(),
        TokenType::Eof,
    ];
    assert_eq!(tokens.into_iter().map(|x| x.tok).collect::<Vec<TokenType>>(), correct);
}

#[test]
fn tmp() {
    let tokens = lex_all("52");
    println!("{:?}", tokens.into_iter().map(|x| x.tok).collect::<Vec<TokenType>>());
}

#[test]
fn test_reset() {
    let tokens = lex_all("52");
    println!("{:?}", tokens.into_iter().map(|x| x.tok).collect::<Vec<TokenType>>());
}

fn program_ok(input: &str) {
    let lex = Lexer::new("tmp".to_string(), input.to_string());
    let mut parser = Parser::new(lex).unwrap();
    let res = parser.parse();
    println!("{:?}", res);
    assert!(res.is_ok());
}

fn program_err(input: &str) {
    let lex = Lexer::new("tmp".to_string(), input.to_string());
    let mut parser = Parser::new(lex).unwrap();
    let res = parser.parse();
    println!("{:?}", res);
    assert!(res.is_err());
}

#[test]
fn basic_program() {
    let input = "
        char f() {
            return 'a';
        }

        int main() {
            int a = 1 + 2;
            if (a > 0) {
                a = 100;
                return 1045;
            }
            else {
                a = 1000;
            }
            return a;
        }
    ";
    program_ok(input);
    let input = "int main() {f();}";
    program_ok(input);
    let input = "int f() { return 1; } int main() {return f();}";
    program_ok(input);
    program_ok("int main() { for (int i = 5; i < 10; i++) return 1;}");
    program_ok("int main() { int * x = 3; return *x; }");
    program_ok("int f(int a, int b) {}");
}

#[test]
fn struct_parse_test() {
    program_ok(
        "
        struct A {
            int a;
        }
    ",
    );

    program_ok("struct Structure; int main() {}");
    program_err("struct int;");
    program_ok("struct A{}");
    program_ok("struct A {int a; char b;}");
    program_err("struct A {int a = 1; char b;}");
    program_ok("struct Structure; Structure main() {}");
    program_ok("struct Structure; Structure main() {  }");

    program_ok("struct A { int a; } int main() {A a; return a.a;}");
    program_ok("struct A { int a; } int main() {A a; return a.b;}");
    program_ok("struct A { int a; } int main() {A a; return a.a.a;}");
    program_ok("struct A { int a; } int main() {A a; return a.a.a + 4;}");
    program_err("struct A { int a; } int main() {A a; return a.+;}");
    program_err("struct A { int a; } int main() {A a; return a.1;}");
    program_err("int main() {return a.1;}");
    program_ok("int main() {return (1+2).a.a + 4;}");
}

#[test]
fn wrong_program() {
    let input = "foo haha bubu";
    let lex = Lexer::new("tmp".to_string(), input.to_string());
    let mut parser = Parser::new(lex).unwrap();
    let res = parser.parse();
    assert!(res.is_err());
}

#[test]
fn test_array_parser() {
    program_ok("int main() {int * a; return a[0]; }");
    program_ok("int main() {int a[5]; return a[0]; }");
    program_err("int main() {int x = 5; int a[x]; return a[0]; }");
    program_err("int main() {int a[1 + 2]; return a[0]; }");
    program_err("int main() {int a[-2]; return a[0]; }");
}

#[test]
fn test_addassign_error() {
    program_err("void main() {int a; a += 1;}");
    program_err("void main() {int a; a -= 1;}");
}

fn type_ok(input: &str) {
    let lex = Lexer::new("tmp".to_string(), input.to_string());
    let mut parser = Parser::new(lex).unwrap();
    let mut res = parser.parse().unwrap();
    let tmp = type_program(&mut res);
    println!("{:?}", tmp);
    assert!(tmp.is_ok());
}

fn type_err(input: &str) {
    let lex = Lexer::new("tmp".to_string(), input.to_string());
    let mut parser = Parser::new(lex).unwrap();
    let mut res = parser.parse().unwrap();
    let tmp = type_program(&mut res);
    println!("{:?}", res);
    assert!(tmp.is_err());
}

#[test]
fn basic_test_typedef() {
    type_ok("void main() {}");
    type_ok("int main() {return 1;}");
    type_ok("void main() {int x = 5;}");
    type_err("void main() {int x = 5; char x;}");
    type_ok("int main() {int x = 5; return x;}");
    type_err("char main() {int x = 5; return x;}");
    type_ok("int a; int main() {return a;}");
    type_err("int * a; int main() {return a;}");
    type_ok("int f() { return 1; } int main() {return f();}");
}

#[test]
fn block_test_typedef() {
    type_ok("void main() {int x; {int y = x;}}");
    type_ok("int main() {int x; {int z = x;{int y = z; return z;}}}");
    type_err("int main() {char x; {char z = x;{char y = z; return z;}}}");
    type_err("void main() {{int y = x;} int x;}");
    type_err("int main() {{int y = 5;} return y;}");
}

#[test]
fn flow_test_typedef() {
    type_ok("int main() { if (1) return 1; return 2; }");
    type_ok("int main() { if (0) return 1; return 2; }");
    type_ok("int main() { while (0) return 1; return 2; }");
    type_ok("int main() { int x = 5; while (x) return 1; return 2; }");
    type_err("int main() { char x = 5; while (x) return 1; return 2; }");
    type_ok("int main() { if(1) { int x; } return 1;}");
    type_err("int main() { if(1) int x; return x;}");
    type_ok("void main() { if(1) int x; else int x;}");
    type_err("int main() { if(1) int x; else int x; return x;}");
    type_ok("int main() { for (int i = 5; i < 10; i++) return 1; return 2;}");
    type_ok(
        "
        int main() { 
            for (int i = 5; i < 10; i++) {
                int x = 2;
                if (i > 2)
                    return 1;
                else 
                    x = i + x;
            }
            return 2;
        }",
    );
}

#[test]
fn index_test_typedef() {
    type_ok("int main() { int * x; return x[0]; }");
    type_ok("char * f(); char main() { return f()[1]; }");
    type_err("int f(); int main() { return f()[0]; }");
    type_err("int main() { int * x; return x[x]; }");
    type_err("int main() { char * x; return x[x]; }");
    type_err("int main() { char * x; return x[0]; }");
}

#[test]
fn cast_test_typedef() {
    type_ok("int main() { char * x; return cast<int>(x[0]); }");
    type_ok("char main() { char * x; return x[cast<int>(x)]; }");
    type_ok("void f() {} char main() { return cast<char>(f); }");
    type_err("void f() {} char main() { return f; }");
}

#[test]
fn deref_test_typedef() {
    type_ok("int main() { int * x; return *x; }");
    type_ok("int main() { int a = 5; int * x = &a; return *x; }");
    type_ok("int main() { int a = 5; int * b = &a; int ** x = &b; return **x; }");
    type_err("int main() { int a = 5; int * b = &a; int ** x = &b; return ***x; }");
    type_err("int main() { int a = 5; int * b = &a; int ** x = &b; return *x; }");
}

#[test]
fn assign_test_typedef() {
    type_ok("int main() {int a = 5; a = 3; return a;}");
    type_ok("int main() {int * a; *a = 3; return *a;}");
    type_err("int main() {int * a; a = 3; return *a;}");
    type_err("int f() {} int main() { f = 5; }");
    type_err("int f() {} int main() { *f = 5; }");
    type_err("int main() { 1 = 5; }");
    type_err("int main() { *1 = 5; }");
    type_err("int main() { **1 = 5; }");
    type_err("int main() {int a = 5; *a = 3; return a;}");
}

#[test]
fn binaryop_test_typedef() {}

#[test]
fn function_test_typedef() {
    type_ok("int f(int x) { return x + 1; } int main() { return f(2); }");
    type_err("int f(char x) { return cast<int>(x); } int main() { return f(2); }");
    type_err("int f(int x) { return x + 1; } int main() { return f(); }");
    type_err("int f(int x) { return x + 1; } int main() { return f('a'); }");
    type_err("int f(int x) { return x + 1; } int main() { return f(1, 2); }");
}

#[test]
fn recur_test_typedef() {
    type_ok(
        "
        int fib(int n) {
            if (n <= 0) {
                return 0;
            }
            else if (n <= 1) {
                return 1;
            }
            return fib(n - 1) + fib(n - 2);
        }

        int main() {
            int res = fib(10);
            return res;
        }
    ",
    );

    type_ok(
        "
        int odd(int n);

        int even(int n) {
            return odd(n - 1);
        }

        int odd(int n) {
            return even(n - 1);
        }
    ",
    );

    type_err(
        "
        int even(int n) {
            return odd(n - 1);
        }

        int odd(int n) {
            return even(n - 1);
        }
    ",
    );

    type_err(
        "
        int even(int n) {
            return odd(n - 1);
        }

        int odd(int n);

        int odd(int n) {
            return even(n - 1);
        }
    ",
    );

    type_err(
        "
        int f(int a);
        int f(int a, char b) {}
    ",
    );

    type_err(
        "
        int f(int a);
        int f() {}
    ",
    );
}

#[test]
fn struct_test_typedef() {
    type_ok("struct A; void main() {}");
    type_ok("struct A {} A f() {A a; return a;}");
    type_err("struct A; A f();");
    type_ok("struct A {} A v;");
    type_err("struct A; A v;");
    type_err("struct A { A a; }");
    type_ok("struct A { A * a; }");
    type_ok("struct A; A* a;");
    type_err("struct Foo {} Foo main(Foo argc) { return ++argc; }");
    type_ok("struct Foo; struct Foo { int i; } void main(Foo x) {}");
    type_ok("struct A {} A f() { A a; return a; }");
    type_ok("struct A {} struct B { A a; } ");
    type_err("struct B; struct A { B b; } struct B { A a; } ");
    type_ok("struct B; struct A { B * b; } struct B { A a; } ");
    type_ok("struct A {} A f(A a) { return a; }");
    type_ok("struct A {} A g() { A a; return a; } void f() { A a = g(); }");
    type_ok("struct A {} A g() { A a; return a; } A f() { return g(); }");
    type_err("struct A {} struct B {} A g() { A a; return a; } B f() { return g(); }");

    type_ok("struct A { int a; } int main() {A a; return a.a;}");
    type_err("struct A { int a; } int main() {A a; return a.b;}");
    type_err("struct A { int a; } int main() {A a; return a.a.a;}");
    type_ok("struct A { int a; } int main() {A a; a.a = 5; return a.a;}");
    type_err("struct A { int a; } A f() {A a; return a;} int main() {f().a = 5; return 1;}");
}

#[test]
fn array_test_typedef() {
    type_ok("int main() {int * a; return a[0]; }");
    type_ok("int main() {int a[5]; return a[0]; }");
    type_ok("int main() {int a[5]; a[0] = 5; return a[0];}");
    type_err("int * f() {int a[5]; return a;} int main() {f()[0] = 5; return 1;}");
}

#[test]
fn return_test_typedef() {
    type_ok("void main() { return; }");
    type_ok("int main(int a) { return a; }");
    type_err("int main(int a) { if (a) {return a;}  }");
    type_ok("int main(int a) { if (a) {return a;} return 1;}");
    type_ok("int main(int a) { if (a) {return a;} else {return 1;} }");
    type_err("int main(int a) { while (a) {return a;}  }");
    type_ok("int main(int a) { while (a) {return a;} return 1;}");
}


#[test]
fn blank_source_parses_to_nothing() {
    let prog = lib::frontend::parse("  \n\t ".to_string(), "blank.c".to_string()).unwrap();
    assert_eq!(prog.items.len(), 0);
}

#[test]
fn short_forms_parse() {
    let lex = Lexer::new("tmp".to_string(), "struct S;".to_string());
    let mut parser = Parser::new(lex).unwrap();
    assert_eq!(parser.parse().unwrap().items.len(), 1);

    let lex = Lexer::new("tmp".to_string(), "int f();".to_string());
    let mut parser = Parser::new(lex).unwrap();
    let f = parser.fn_decl().unwrap();
    assert!(f.value.body.is_none());
    assert_eq!(f.value.header.value.params.len(), 0);

    let lex = Lexer::new("tmp".to_string(), "void g() {}".to_string());
    let mut parser = Parser::new(lex).unwrap();
    let f = parser.fn_decl().unwrap();
    assert!(f.value.body.is_some());

    program_ok("int main() { while (x) {} }");
    program_ok("int main() { if (1) {} else {} }");
    program_ok("int main() { for (;;) {} }");
    program_ok("int main() { break; continue; return; }");
}

#[test]
fn unlexable_first_token_is_a_lexer_error() {
    let lex = Lexer::new("tmp".to_string(), "#".to_string());
    let r = Parser::new(lex);
    assert!(matches!(
        r,
        Err(lib::frontend::errors::FrontendError::Lexer(
            lib::frontend::errors::LexerError::UnexpectedCharacter('#')
        ))
    ));
    assert!(lib::frontend::parse("#".to_string(), "t.c".to_string()).is_err());
}

#[test]
fn declaration_header_is_parsed() {
    let lex = Lexer::new("tmp".to_string(), "int f(int a, char b);".to_string());
    let mut parser = Parser::new(lex).unwrap();
    let d = parser.fn_decl().unwrap();
    assert_eq!(d.value.header.value.name, "f");
    assert_eq!(d.value.header.value.params.len(), 2);
    assert_eq!(d.value.header.value.params[0].0, "a");
    assert_eq!(d.value.header.value.params[0].1, TypeDef::PrimType(PrimType::Int));
    assert_eq!(d.value.header.value.params[1].0, "b");
    assert_eq!(d.value.header.value.params[1].1, TypeDef::PrimType(PrimType::Char));
    assert_eq!(d.value.header.value.ret_type, TypeDef::PrimType(PrimType::Int));
    assert!(d.value.body.is_none());
    assert_eq!(parser.curr_tok.tok, TokenType::Eof);
}

#[test]
fn index_expression_parses() {
    program_ok("int main() { int * a; return a[0]; }");
}

#[test]
fn lone_structure_declaration_checks() {
    let p = lib::frontend::parse("struct S;".to_string(), "t.c".to_string()).unwrap();
    assert_eq!(p.items.len(), 1);
    let q = lib::frontend::parse("void f() {}".to_string(), "t.c".to_string()).unwrap();
    assert_eq!(q.items.len(), 1);
}

#[test]
fn prototype_with_parameters() {
    let lex = Lexer::new("tmp".to_string(), "int f(int a, char b);".to_string());
    let mut parser = Parser::new(lex).unwrap();
    let d = parser.fn_decl().unwrap();
    assert_eq!(d.value.header.value.name, "f".to_string());
    assert_eq!(d.value.header.value.params.len(), 2);
    assert_eq!(d.value.header.value.params[0].0, "a".to_string());
    assert!(d.value.header.value.params[0].1 == TypeDef::PrimType(PrimType::Int));
    assert_eq!(d.value.header.value.params[1].0, "b".to_string());
    assert!(d.value.header.value.params[1].1 == TypeDef::PrimType(PrimType::Char));
    assert!(d.value.header.value.ret_type == TypeDef::PrimType(PrimType::Int));
    assert!(d.value.body.is_none());
}
