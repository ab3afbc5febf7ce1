use postparse::combinators::{
    alpha, between, delimited, in_set, many0, many1, min_times, not_in_set, opt, pair, rest, tag,
    until, ws, Parse, ParserError,
};

#[test]
fn test_tag() {
    let hashtag_bingus = "#bingus";
    let (_, input) = tag("#").parse(hashtag_bingus).unwrap();
    assert_eq!(input, "bingus");
    assert!(tag("#").parse("bad input no hashtag").is_err());
}

#[test]
fn test_pair() {
    let hashtag_parser = pair(tag("#"), alpha());

    let input = "#bingus";
    let ((hashtag, bingus), input) = hashtag_parser.parse(input).unwrap();
    assert_eq!(hashtag, "#");
    assert_eq!(bingus, "bingus");
    assert_eq!(input, "");

    hashtag_parser.parse("no hashtag").unwrap_err();
}

#[test]
fn test_alpha() {
    let input = "bingus... or something";
    let (bingus, input) = alpha().parse(input).unwrap();
    assert_eq!(bingus, "bingus");
    assert_eq!(input, "... or something");
    let input = "123?!";
    let (nada, input) = alpha().parse(input).unwrap();
    assert_eq!(nada, "");
    assert_eq!(input, "123?!");
}

#[test]
fn test_map() {
    let parse_bool = postparse::combinators::map(alpha(), |s: &str| match s {
        "true" => Some(true),
        "false" => Some(false),
        _ => None,
    });
    let (res, input) = parse_bool.parse("true").unwrap();
    assert_eq!(res, Some(true));
    assert_eq!(input, "");
    let (res, input) = parse_bool.parse("false").unwrap();
    assert_eq!(res, Some(false));
    assert_eq!(input, "");
    let (res, input) = parse_bool.parse("bingus").unwrap();
    assert_eq!(res, None);
    assert_eq!(input, "");
}

#[test]
fn test_delimited() {
    let paren_parser = delimited("(", ")");
    let input = "(a delimited bingus)...";
    let (res, input) = paren_parser.parse(input).unwrap();
    assert_eq!(res, "a delimited bingus");
    assert_eq!(input, "...");

    let ticks_parser = delimited("```", "```");
    let input = "```bingus in ticks```!!!";
    let (res, input) = ticks_parser.parse(input).unwrap();
    assert_eq!(res, "bingus in ticks");
    assert_eq!(input, "!!!");

    ticks_parser.parse("```missing closing ticks").unwrap_err();
    ticks_parser.parse("missing opening ticks```").unwrap_err();
}

#[test]
fn test_until() {
    let (_, input) = tag("#").parse("#A title\nbody").unwrap();
    let (title, input) = until("\n").parse(input).unwrap();
    assert_eq!(title, "A title");
    assert_eq!(input, "body");
}

#[test]
fn test_many0() {
    let hashtags_parser = many0(tag("#"));
    let (res, input) = hashtags_parser.parse("###three!").unwrap();
    assert_eq!(res.len(), 3);
    assert_eq!(input, "three!");

    let woah_parser = many0(between(ws(), tag("woah"), ws()));
    let (res, input) = woah_parser
        .parse("woah woah woahwoahwoah   woahwoah    woah woah woah woah back it up")
        .unwrap();
    assert_eq!(res.len(), 11);
    assert_eq!(input, "back it up");

    let (res, input) = woah_parser.parse("none to be found").unwrap();
    assert_eq!(res.len(), 0);
    assert_eq!(input, "none to be found");
}

#[test]
fn test_many1() {
    let hashtags_parser = many1(tag("#"));
    let (res, input) = hashtags_parser.parse("#####five!!").unwrap();
    assert_eq!(res.len(), 5);
    assert_eq!(input, "five!!");

    hashtags_parser.parse("none to be found").unwrap_err();
}

#[test]
fn test_parse_link() {
    let link_parser = pair(delimited("[", "]"), delimited("(", ")"));

    let input = "[some link text](http://cool.com/)";
    let ((title, url), input) = link_parser.parse(input).unwrap();
    assert_eq!(title, "some link text");
    assert_eq!(url, "http://cool.com/");
    assert_eq!(input, "");
}

#[test]
fn test_tag_empty_literal() {
    let (matched, input) = tag("").parse("anything").unwrap();
    assert_eq!(matched, "");
    assert_eq!(input, "anything");
}

#[test]
fn test_opt_success_and_failure() {
    let p = opt(tag("#"));
    let (res, input) = p.parse("#x").unwrap();
    assert_eq!(res, Some("#"));
    assert_eq!(input, "x");

    let (res, input) = p.parse("no hashtag here").unwrap();
    assert_eq!(res, None);
    assert_eq!(input, "no hashtag here");
}

#[test]
fn test_in_set_consumes_longest_prefix() {
    let p = in_set("ab");
    let (run, input) = p.parse("abbaX").unwrap();
    assert_eq!(run, "abba");
    assert_eq!(input, "X");

    let (run, input) = p.parse("xyz").unwrap();
    assert_eq!(run, "");
    assert_eq!(input, "xyz");

    let (run, input) = p.parse("aabb").unwrap();
    assert_eq!(run, "aabb");
    assert_eq!(input, "");
}

#[test]
fn test_not_in_set_needs_stopping_char() {
    let p = not_in_set(":");
    let (key, input) = p.parse("name: value").unwrap();
    assert_eq!(key, "name");
    assert_eq!(input, ": value");

    let err = p.parse("no colon at all").unwrap_err();
    assert!(matches!(err, ParserError::UnexpectedEof));
}

#[test]
fn test_ws_consumes_maximal_run() {
    let (run, input) = ws().parse(" \t\nrest").unwrap();
    assert_eq!(run, " \t\n");
    assert_eq!(input, "rest");

    let (run, input) = ws().parse("   ").unwrap();
    assert_eq!(run, "   ");
    assert_eq!(input, "");
}

#[test]
fn test_rest_takes_everything() {
    let (all, input) = rest().parse("whatever is left").unwrap();
    assert_eq!(all, "whatever is left");
    assert_eq!(input, "");
}

#[test]
fn test_until_eof() {
    let err = until("|").parse("never closed").unwrap_err();
    assert!(matches!(err, ParserError::UnexpectedEof));
}

#[test]
fn test_delimited_eof_kind() {
    let err = delimited("```", "```").parse("```missing closing ticks").unwrap_err();
    assert!(matches!(err, ParserError::UnexpectedEof));
    let err = delimited("(", ")").parse("missing opening paren").unwrap_err();
    assert!(matches!(err, ParserError::Detailed(_)));
}

#[test]
fn test_delimited_equal_markers_empty_span() {
    let (inner, input) = delimited("|", "|").parse("||after").unwrap();
    assert_eq!(inner, "");
    assert_eq!(input, "after");
}

#[test]
fn test_min_times_exact_count() {
    let p = min_times(3, tag("#"));
    let (res, input) = p.parse("####").unwrap();
    assert_eq!(res, vec!["#", "#", "#"]);
    assert_eq!(input, "#");

    p.parse("##").unwrap_err();
}

#[test]
fn test_many0_no_progress_is_error() {
    let p = many0(tag(""));
    let err = p.parse("anything").unwrap_err();
    assert!(matches!(err, ParserError::Detailed(_)));
}

#[test]
fn test_many0_on_empty_input() {
    let p = many0(tag("#"));
    let (res, input) = p.parse("").unwrap();
    assert_eq!(res.len(), 0);
    assert_eq!(input, "");
}
