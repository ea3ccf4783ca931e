use concurr::template::{PreparedCommand, Token, Tokens};

fn text(s: &str) -> Token {
    Token::Text(s.into())
}

#[test]
fn mod_tokens() {
    let expected = PreparedCommand {
        tokens: vec![text("echo "), Token::Job, text(": "), Token::Placeholder],
    };

    assert_eq!(PreparedCommand::new("echo {#}: {}"), expected);
    assert_eq!(PreparedCommand::new("echo {#}:"), expected);
}

#[test]
fn tokenizer_tokens() {
    let expected = Tokens {
        tokens: vec![text("echo "), Token::Job, text(": "), Token::Placeholder],
    };

    assert_eq!(Tokens::new("echo {#}: {}"), expected);
    assert_eq!(Tokens::new("echo {#}:"), expected);
}

#[test]
fn empty_pattern_gets_a_lone_placeholder() {
    assert_eq!(Tokens::new("").tokens, vec![Token::Placeholder]);
}

#[test]
fn pattern_ending_in_a_token_gets_a_space_then_a_placeholder() {
    assert_eq!(Tokens::new("{%}").tokens, vec![Token::Slot, text(" "), Token::Placeholder]);
}

#[test]
fn backslash_shields_a_brace() {
    assert_eq!(Tokens::new("a\\{} {}").tokens, vec![text("a\\{} "), Token::Placeholder]);
}

#[test]
fn unknown_brace_group_stays_text() {
    assert_eq!(Tokens::new("{x} {}").tokens, vec![text("{x} "), Token::Placeholder]);
    assert_eq!(Tokens::new("{a{}b").tokens, vec![text("{a{}b "), Token::Placeholder]);
}

#[test]
fn all_three_tokens() {
    assert_eq!(
        Tokens::new("cp {} {#}.{%}").tokens,
        vec![text("cp "), Token::Placeholder, text(" "), Token::Job, text("."), Token::Slot]
    );
}

#[test]
fn render_writes_the_pattern_back() {
    assert_eq!(Tokens::new("echo {#}: {}").to_string(), "echo {#}: {}");
    assert_eq!(Tokens::new("echo").to_string(), "echo {}");
}

#[test]
fn parse_of_render_gives_the_tokens_back() {
    let t = Tokens {
        tokens: vec![text("ls "), Token::Slot, text(" -"), Token::Placeholder, Token::Job],
    };
    assert_eq!(Tokens::new(&t.to_string()), t);
}

#[test]
fn every_parse_holds_a_placeholder() {
    for p in ["", "x", "{#}", "{%}{#}", "{{}}", "\\{}", "{} {}"] {
        assert!(Tokens::new(p).tokens.contains(&Token::Placeholder), "{}", p);
    }
}

#[test]
fn substitution_of_input_job_and_slot() {
    let t = Tokens::new("echo {#}:{%} {}");
    assert_eq!(t.substitute(1, 3, "a b"), "echo 3:1 a b");
    assert_eq!(t.substitute(0, 1234567, ""), "echo 1234567:0 ");
}

#[test]
fn index_substitution_scenario() {
    let t = Tokens::new("echo {#}:{%}");
    let inputs = ["a", "b", "c", "d"];
    for (jid, input) in inputs.iter().enumerate() {
        let slot = jid % 2;
        let line = t.substitute(slot, jid, input);
        assert_eq!(line, format!("echo {}:{} {}", jid, slot, input));
    }
}
