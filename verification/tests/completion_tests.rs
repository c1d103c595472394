use clap_repl::completion::{
    complete, complete_words, live_token, narrow, offers, rank, resolve, CompletionCandidate,
    CompletionRequest, Live, Slot,
};
use clap_repl::lexer::{tokenize, Token};
use clap_repl::parser::{parse_line, GrammarError, ParseOutcome};
use clap_repl::grammar::{Grammar, GrammarNode, ValueChoice};

fn s(text: &str) -> String {
    text.to_string()
}

fn words(list: &[&str]) -> Vec<Token> {
    list.iter().map(|w| Token { text: w.to_string(), start: 0, end: 0 }).collect()
}

fn live(text: &str, start: usize, end: usize, committed: usize) -> Live {
    Live { token: Token { text: s(text), start, end }, committed }
}

fn choice(literal: &str, description: Option<&str>) -> ValueChoice {
    ValueChoice { literal: s(literal), description: description.map(s) }
}

// app
//   download(1) { path(4): required positional, check_sha(5): switch --check-sha }
//   upload(2)   { kind(6): positional out of {text, binary} }
//   login(3)    { mode(7): --mode / -m with a value out of {secure, insecure} }
fn sample() -> Grammar {
    let mut g = Grammar::new(s("app"));
    let download = g
        .add_child(0, GrammarNode::command(s("download"), Some(s("fetch a file"))))
        .unwrap();
    let upload = g.add_child(0, GrammarNode::command(s("upload"), None)).unwrap();
    let login = g.add_child(0, GrammarNode::command(s("login"), None)).unwrap();
    g.add_child(download, GrammarNode::positional(s("path"), true)).unwrap();
    g.add_child(download, GrammarNode::flag(s("check_sha"), Some(s("--check-sha")), None, false))
        .unwrap();
    let mut kind = GrammarNode::positional(s("kind"), false);
    kind.values = Some(vec![choice("text", None), choice("binary", None)]);
    g.add_child(upload, kind).unwrap();
    let mut mode = GrammarNode::flag(s("mode"), Some(s("--mode")), Some(s("-m")), true);
    mode.description = Some(s("how to connect"));
    mode.values = Some(vec![choice("secure", Some("with TLS")), choice("insecure", None)]);
    g.add_child(login, mode).unwrap();
    g
}

fn at_end(g: &Grammar, line: &str) -> Vec<CompletionCandidate> {
    complete(g, &CompletionRequest { line: s(line), cursor: line.len() })
}

fn cand(text: &str, description: Option<&str>, start: usize, end: usize, space: bool) -> CompletionCandidate {
    CompletionCandidate {
        replacement_text: s(text),
        description: description.map(s),
        start,
        end,
        append_trailing_space: space,
    }
}

#[test]
fn complete_unambiguous_command_prefix() {
    assert_eq!(
        at_end(&sample(), "dow"),
        vec![cand("download", Some("fetch a file"), 0, 3, true)]
    );
}

#[test]
fn complete_empty_line_lists_commands_in_declaration_order() {
    assert_eq!(
        at_end(&sample(), ""),
        vec![
            cand("download", Some("fetch a file"), 0, 0, true),
            cand("upload", None, 0, 0, true),
            cand("login", None, 0, 0, true),
        ]
    );
}

#[test]
fn complete_flag_value_after_space() {
    assert_eq!(
        at_end(&sample(), "login --mode "),
        vec![cand("secure", Some("with TLS"), 13, 13, true), cand("insecure", None, 13, 13, true)]
    );
}

#[test]
fn complete_flag_value_prefix_replaces_only_the_prefix() {
    assert_eq!(
        at_end(&sample(), "login --mode sec"),
        vec![cand("secure", Some("with TLS"), 13, 16, true)]
    );
}

#[test]
fn complete_is_case_sensitive() {
    assert_eq!(at_end(&sample(), "Dow"), Vec::new());
    assert_eq!(at_end(&sample(), "login --mode Sec"), Vec::new());
}

#[test]
fn complete_offers_flag_spellings() {
    assert_eq!(
        at_end(&sample(), "login "),
        vec![
            cand("--mode", Some("how to connect"), 6, 6, true),
            cand("-m", Some("how to connect"), 6, 6, true),
        ]
    );
    assert_eq!(
        at_end(&sample(), "login --"),
        vec![cand("--mode", Some("how to connect"), 6, 8, true)]
    );
    assert_eq!(
        at_end(&sample(), "login -"),
        vec![
            cand("--mode", Some("how to connect"), 6, 7, true),
            cand("-m", Some("how to connect"), 6, 7, true),
        ]
    );
}

#[test]
fn complete_leaves_out_a_flag_that_is_bound() {
    assert_eq!(at_end(&sample(), "login --mode secure "), Vec::new());
    assert_eq!(at_end(&sample(), "download x --check-sha "), Vec::new());
    assert_eq!(
        at_end(&sample(), "download x "),
        vec![cand("--check-sha", None, 11, 11, true)]
    );
}

#[test]
fn complete_offers_a_repeatable_flag_again() {
    let mut g = Grammar::new(s("app"));
    let mut tag = GrammarNode::flag(s("tag"), Some(s("--tag")), None, true);
    tag.multiple = true;
    g.add_child(0, tag).unwrap();
    assert_eq!(at_end(&g, "--tag a "), vec![cand("--tag", None, 8, 8, true)]);
}

#[test]
fn complete_positional_values() {
    assert_eq!(
        at_end(&sample(), "upload "),
        vec![cand("text", None, 7, 7, true), cand("binary", None, 7, 7, true)]
    );
    assert_eq!(at_end(&sample(), "upload b"), vec![cand("binary", None, 7, 8, true)]);
    assert_eq!(at_end(&sample(), "upload text "), Vec::new());
}

#[test]
fn complete_inside_the_line_uses_the_prefix_only() {
    let g = sample();
    assert_eq!(
        complete(&g, &CompletionRequest { line: s("dow file.txt"), cursor: 3 }),
        vec![cand("download", Some("fetch a file"), 0, 3, true)]
    );
    assert_eq!(
        complete(&g, &CompletionRequest { line: s("login --mode sec --x"), cursor: 16 }),
        vec![cand("secure", Some("with TLS"), 13, 16, true)]
    );
    assert_eq!(
        complete(&g, &CompletionRequest { line: s("up \"open"), cursor: 2 }),
        vec![cand("upload", None, 0, 2, true)]
    );
}

#[test]
fn complete_with_open_quote_yields_nothing() {
    assert_eq!(at_end(&sample(), "login \"--mo"), Vec::new());
    assert_eq!(at_end(&sample(), "'dow"), Vec::new());
    assert_eq!(at_end(&sample(), "dow\\"), Vec::new());
}

#[test]
fn complete_with_cursor_out_of_place_yields_nothing() {
    let g = sample();
    assert_eq!(complete(&g, &CompletionRequest { line: s("dow"), cursor: 4 }), Vec::new());
    assert_eq!(complete(&g, &CompletionRequest { line: s("é"), cursor: 1 }), Vec::new());
}

#[test]
fn complete_after_an_unknown_command_stays_at_the_root() {
    assert_eq!(
        at_end(&sample(), "bogus up"),
        vec![cand("upload", None, 6, 8, true)]
    );
    assert_eq!(at_end(&sample(), "bogus ").len(), 3);
}

#[test]
fn complete_escaped_space_keeps_the_word_alive() {
    let mut g = Grammar::new(s("app"));
    g.add_child(0, GrammarNode::command(s("a b"), None)).unwrap();
    g.add_child(0, GrammarNode::command(s("a"), None)).unwrap();
    assert_eq!(at_end(&g, "a\\ "), vec![cand("a b", None, 0, 3, true)]);
    assert_eq!(at_end(&g, "a "), Vec::new());
}

#[test]
fn complete_no_space_after_a_prefix_of_a_longer_candidate() {
    let mut g = Grammar::new(s("app"));
    g.add_child(0, GrammarNode::command(s("log"), None)).unwrap();
    g.add_child(0, GrammarNode::command(s("login"), None)).unwrap();
    g.add_child(0, GrammarNode::command(s("list"), None)).unwrap();
    assert_eq!(
        at_end(&g, "lo"),
        vec![cand("log", None, 0, 2, false), cand("login", None, 0, 2, true)]
    );
    assert_eq!(
        at_end(&g, "l"),
        vec![
            cand("log", None, 0, 1, false),
            cand("login", None, 0, 1, true),
            cand("list", None, 0, 1, true),
        ]
    );
}

#[test]
fn complete_quoted_word_replaces_the_quotes_too() {
    assert_eq!(
        at_end(&sample(), "login --mode \"sec\""),
        vec![cand("secure", Some("with TLS"), 13, 18, true)]
    );
    assert_eq!(
        at_end(&sample(), "'dow'"),
        vec![cand("download", Some("fetch a file"), 0, 5, true)]
    );
    assert_eq!(
        at_end(&sample(), "login   --mode  in\\s"),
        vec![cand("insecure", None, 16, 20, true)]
    );
}

#[test]
fn complete_inside_a_comment_starts_a_new_word() {
    assert_eq!(at_end(&sample(), "login #x").len(), 2);
    assert_eq!(
        at_end(&sample(), "login #--m"),
        vec![
            cand("--mode", Some("how to connect"), 10, 10, true),
            cand("-m", Some("how to connect"), 10, 10, true),
        ]
    );
}

#[test]
fn complete_words_goes_by_the_live_token() {
    let g = sample();
    assert_eq!(
        complete_words(&g, &words(&["login", "--mode", "in"]), &live("in", 13, 15, 2)),
        vec![cand("insecure", None, 13, 15, true)]
    );
    assert_eq!(
        complete_words(&g, &words(&["login", "--mode", "in"]), &live("", 16, 16, 3)),
        Vec::new()
    );
    assert_eq!(
        complete_words(&g, &Vec::new(), &live("", 0, 0, 0)),
        vec![
            cand("download", Some("fetch a file"), 0, 0, true),
            cand("upload", None, 0, 0, true),
            cand("login", None, 0, 0, true),
        ]
    );
    assert_eq!(complete_words(&g, &Vec::new(), &live("", 0, 0, 1)).len(), 3);
}

#[test]
fn live_token_is_the_last_word_or_a_new_one() {
    let of = |prefix: &str| live_token(prefix, &tokenize(prefix).unwrap());
    assert_eq!(of(""), live("", 0, 0, 0));
    assert_eq!(of("login "), live("", 6, 6, 1));
    assert_eq!(of("login"), live("login", 0, 5, 0));
    assert_eq!(of("  login  --mo"), live("--mo", 9, 13, 1));
    assert_eq!(of("x \"a b\"c"), live("a bc", 2, 8, 1));
    assert_eq!(of("x a\\ b"), live("a b", 2, 6, 1));
    assert_eq!(of("x a\\ "), live("a ", 2, 5, 1));
    assert_eq!(of("x a\\\\ "), live("", 6, 6, 2));
    assert_eq!(of("x #note"), live("", 7, 7, 1));
}

#[test]
fn live_token_goes_by_the_tokens_it_is_given() {
    let tokens = vec![Token { text: s("ab"), start: 0, end: 2 }];
    assert_eq!(live_token("ab", &tokens), live("ab", 0, 2, 0));
    assert_eq!(live_token("ab c", &tokens), live("", 4, 4, 1));
}

#[test]
fn resolve_finds_the_slot() {
    let g = sample();
    assert_eq!(resolve(&g, &words(&[]), 0), Slot::Commands { node: 0 });
    assert_eq!(resolve(&g, &words(&["nope"]), 1), Slot::Commands { node: 0 });
    assert_eq!(resolve(&g, &words(&["login", "x"]), 0), Slot::Commands { node: 0 });
    assert_eq!(resolve(&g, &words(&["login", "--mode"]), 7), Slot::Value { node: 7 });
    assert_eq!(
        resolve(&g, &words(&["login"]), 1),
        Slot::Arguments { node: 3, pos: 0, used: vec![] }
    );
    assert_eq!(resolve(&g, &words(&["login", "--mode"]), 2), Slot::Value { node: 7 });
    assert_eq!(
        resolve(&g, &words(&["login", "--mode", "secure"]), 3),
        Slot::Arguments { node: 3, pos: 0, used: vec![7] }
    );
    assert_eq!(
        resolve(&g, &words(&["download", "x"]), 2),
        Slot::Arguments { node: 1, pos: 1, used: vec![] }
    );
    assert_eq!(
        resolve(&g, &words(&["download", "--check-sha", "x", "y"]), 4),
        Slot::Arguments { node: 1, pos: 1, used: vec![5] }
    );
}

#[test]
fn offers_of_a_slot_outside_the_tree_are_none() {
    let g = sample();
    assert_eq!(offers(&g, &Slot::Commands { node: 99 }), Vec::new());
    assert_eq!(offers(&g, &Slot::Value { node: 4 }), Vec::new());
    assert_eq!(
        offers(&g, &Slot::Value { node: 7 }),
        vec![choice("secure", Some("with TLS")), choice("insecure", None)]
    );
}

#[test]
fn narrow_keeps_order_and_prefix_matches() {
    let all = vec![choice("beta", None), choice("alpha", None), choice("be", None)];
    assert_eq!(narrow(&all, &s("be")), vec![choice("beta", None), choice("be", None)]);
    assert_eq!(narrow(&all, &s("")), all);
    assert_eq!(narrow(&all, &s("x")), Vec::new());
}

#[test]
fn rank_marks_prefixes_of_longer_candidates() {
    let some = vec![choice("beta", None), choice("be", Some("short")), choice("be", None)];
    assert_eq!(
        rank(&some, 2, 4),
        vec![
            cand("beta", None, 2, 4, true),
            cand("be", Some("short"), 2, 4, false),
            cand("be", None, 2, 4, false),
        ]
    );
}

#[test]
fn offered_commands_are_accepted_by_the_parser() {
    let g = sample();
    let offered = at_end(&g, "");
    assert_eq!(offered.len(), 3);
    for c in offered {
        match parse_line(&g, &c.replacement_text) {
            ParseOutcome::GrammarError(GrammarError::UnexpectedToken { index, .. }) => {
                assert_ne!(index, 0)
            }
            ParseOutcome::EmptyInput | ParseOutcome::LexError(_) => {
                panic!("{} was offered and not read as a word", c.replacement_text)
            }
            _ => {}
        }
    }
}

#[test]
fn candidates_begin_with_the_live_text_and_share_its_span() {
    let g = sample();
    for line in ["", "l", "login -", "login --mode ", "login --mode i", "upload t", "download x -"] {
        let tokens = tokenize(line).unwrap();
        let live = live_token(line, &tokens);
        for c in at_end(&g, line) {
            assert!(c.replacement_text.starts_with(&live.token.text));
            assert_eq!((c.start, c.end), (live.token.start, live.token.end));
        }
    }
}
