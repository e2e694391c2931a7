use sift::html::tokens::{CowStr, HtmlToken, HtmlTokenizer, TokenizationState};

fn json_str(s: &str) -> String {
    let mut out = String::from("\"");
    for c in s.chars() {
        match c {
            '"' => out.push_str("\\\""),
            '\\' => out.push_str("\\\\"),
            _ => out.push(c),
        }
    }
    out.push('"');
    out
}

fn text(c: &Option<CowStr>) -> Option<String> {
    c.as_ref().map(|t| t.as_str().to_string())
}

fn json_opt(o: Option<String>) -> String {
    match o {
        Some(s) => json_str(&s),
        None => "null".to_string(),
    }
}

/// A token in the notation of the html5lib tokenizer tests; `None` for the
/// end of the input and for empty text.
fn token_to_test_format(token: &HtmlToken) -> Option<(String, String)> {
    match token {
        HtmlToken::StartTag(tag) => {
            let name = text(&tag.name).unwrap_or_default();
            let mut keys: Vec<String> = Vec::new();
            let mut pairs: Vec<String> = Vec::new();
            for a in &tag.attributes {
                let key = text(&a.name).unwrap_or_default();
                if keys.contains(&key) {
                    continue;
                }
                pairs.push(format!("{}:{}", json_str(&key), json_str(&text(&a.value).unwrap_or_default())));
                keys.push(key);
            }
            let closing = if tag.self_closing_tag == Some(true) { ",true" } else { "" };
            Some((
                "StartTag".to_string(),
                format!("[\"StartTag\",{},{{{}}}{}]", json_str(&name), pairs.join(","), closing),
            ))
        }
        HtmlToken::EndTag(tag) => Some((
            "EndTag".to_string(),
            format!("[\"EndTag\",{}]", json_str(&text(&tag.name).unwrap_or_default())),
        )),
        HtmlToken::Comment(data) => {
            Some(("Comment".to_string(), format!("[\"Comment\",{}]", json_str(data.as_str()))))
        }
        HtmlToken::Character(data) => {
            if data.as_str().is_empty() {
                None
            } else {
                Some(("Character".to_string(), data.as_str().to_string()))
            }
        }
        HtmlToken::Doctype(d) => Some((
            "DOCTYPE".to_string(),
            format!(
                "[\"DOCTYPE\",{},{},{},{}]",
                json_opt(text(&d.name)),
                json_opt(text(&d.public_identifier)),
                json_opt(text(&d.system_identifier)),
                !d.force_quirks_flag
            ),
        )),
        HtmlToken::EndOfFile => None,
    }
}

/// The tokens in the notation of the tests, runs of text merged.
fn format_tokens_for_test(tokens: &[HtmlToken]) -> Vec<String> {
    let mut result: Vec<(String, String)> = Vec::new();
    for token in tokens {
        let converted = match token_to_test_format(token) {
            Some(v) => v,
            None => continue,
        };
        if let Some(last) = result.last_mut() {
            if last.0 == "Character" && converted.0 == "Character" {
                last.1.push_str(&converted.1);
                continue;
            }
        }
        result.push(converted);
    }
    result
        .into_iter()
        .map(|(kind, v)| if kind == "Character" { format!("[\"Character\",{}]", json_str(&v)) } else { v })
        .collect()
}

/// One case of the html5lib tokenizer tests: a description, the input, the
/// states to start in, the last start tag, and the expected tokens.
struct Case {
    description: String,
    input: String,
    states: &'static [TokenizationState],
    last_start_tag: Option<&'static str>,
    output: Vec<String>,
}

fn case(
    description: &'static str,
    input: &str,
    states: &'static [TokenizationState],
    last_start_tag: Option<&'static str>,
    output: &[&str],
) -> Case {
    Case {
        description: description.to_string(),
        input: input.to_string(),
        states,
        last_start_tag,
        output: output.iter().map(|s| s.to_string()).collect(),
    }
}

/// Runs one case from each of its states; the description of each run that
/// did not give the expected tokens, with what went wrong.
fn run_case(c: &Case) -> Vec<String> {
    let mut failures = Vec::new();
    for state in c.states {
        let mut t = HtmlTokenizer::new(&c.input);
        if let Some(last) = c.last_start_tag {
            t.set_last_start_tag_name(last);
        }
        t.set_state(*state);
        let mut raw_tokens = Vec::new();
        let mut halted = false;
        let mut endless = false;
        loop {
            if raw_tokens.len() > 4 * c.input.len() + 16 {
                endless = true;
                break;
            }
            if t.halts_next() {
                halted = true;
                break;
            }
            let token = t.next_token().unwrap();
            if token == HtmlToken::EndOfFile {
                break;
            }
            raw_tokens.push(token);
        }
        if halted {
            failures.push(format!("{} ({:?}): does not return", c.description, state));
            continue;
        }
        if endless {
            failures.push(format!("{} ({:?}): does not reach the end of the input", c.description, state));
            continue;
        }
        let actual = format_tokens_for_test(&raw_tokens);
        if actual != c.output {
            failures.push(format!("{} ({:?}): got {:?}", c.description, state, actual));
        }
    }
    failures
}

/// Runs one case that starts in state `Data` with the tokenizer that has a
/// state for each state of the standard.
fn run_case_full(c: &Case) -> Vec<String> {
    let mut t = sift::html::full_tokens::HtmlTokenizer::new(&c.input);
    let mut raw_tokens = Vec::new();
    loop {
        if raw_tokens.len() > 4 * c.input.len() + 16 {
            return vec![format!("{}: does not reach the end of the input", c.description)];
        }
        if t.halts_next() {
            return vec![format!("{}: does not return", c.description)];
        }
        let token = t.next_token().unwrap();
        if token == HtmlToken::EndOfFile {
            break;
        }
        raw_tokens.push(token);
    }
    let actual = format_tokens_for_test(&raw_tokens);
    if actual != c.output {
        return vec![format!("{}: got {:?}", c.description, actual)];
    }
    Vec::new()
}

/// Runs every case and checks that exactly the runs named in `known` fail.
fn run_suite(cases: &[Case], known: &[&str]) {
    let mut failures = Vec::new();
    for c in cases {
        failures.extend(run_case(c));
    }
    check_failures(failures, known);
}

/// Checks that exactly the runs named in `known` failed.
fn check_failures(failures: Vec<String>, known: &[&str]) {
    let failed: Vec<String> = failures
        .iter()
        .map(|f| if f.contains(": got ") { f.split(": got ").next().unwrap().to_string() + ": other tokens" } else { f.clone() })
        .collect();
    let expected: Vec<String> = known.iter().map(|s| s.to_string()).collect();
    let unexpected: Vec<&String> = failed.iter().filter(|f| !expected.contains(f)).collect();
    let fixed: Vec<&String> = expected.iter().filter(|f| !failed.contains(f)).collect();
    assert!(unexpected.is_empty() && fixed.is_empty(), "failing, not listed: {:?}; listed, not failing: {:?}", unexpected, fixed);
    assert_eq!(expected, failed);
}

const DATA: &[TokenizationState] = &[TokenizationState::Data];
const PLAIN: &[TokenizationState] = &[TokenizationState::PlainText];
const RCDATA: &[TokenizationState] = &[TokenizationState::RcData];
const RAWTEXT: &[TokenizationState] = &[TokenizationState::RawText];
const SCRIPT: &[TokenizationState] = &[TokenizationState::ScriptData];
const RCDATA_RAWTEXT: &[TokenizationState] = &[TokenizationState::RcData, TokenizationState::RawText];

fn chars(s: &str) -> String {
    format!("[\"Character\",{}]", json_str(s))
}

#[test]
fn test_content_model_flags() {
    let xmp = Some("xmp");
    let end_xmp = "[\"EndTag\",\"xmp\"]";
    let cases = vec![
        case("PLAINTEXT content model flag", "<head>&body;", PLAIN, Some("plaintext"), &[&chars("<head>&body;")]),
        case(
            "PLAINTEXT with seeming close tag",
            "<plaintext>foo</plaintext>",
            PLAIN,
            Some("plaintext"),
            &[&chars("<plaintext>foo</plaintext>")],
        ),
        case("End tag closing RCDATA or RAWTEXT", "foo</xmp>", RCDATA_RAWTEXT, xmp, &[&chars("foo"), end_xmp]),
        case(
            "End tag closing RCDATA or RAWTEXT (case-insensitivity)",
            "foo</xMp>",
            RCDATA_RAWTEXT,
            xmp,
            &[&chars("foo"), end_xmp],
        ),
        case("End tag closing RCDATA or RAWTEXT (ending with space)", "foo</xmp ", RCDATA_RAWTEXT, xmp, &[&chars("foo")]),
        case("End tag closing RCDATA or RAWTEXT (ending with EOF)", "foo</xmp", RCDATA_RAWTEXT, xmp, &[&chars("foo</xmp")]),
        case("End tag closing RCDATA or RAWTEXT (ending with slash)", "foo</xmp/", RCDATA_RAWTEXT, xmp, &[&chars("foo")]),
        case(
            "End tag not closing RCDATA or RAWTEXT (ending with left-angle-bracket)",
            "foo</xmp<",
            RCDATA_RAWTEXT,
            xmp,
            &[&chars("foo</xmp<")],
        ),
        case(
            "End tag with incorrect name in RCDATA or RAWTEXT",
            "</foo>bar</xmp>",
            RCDATA_RAWTEXT,
            xmp,
            &[&chars("</foo>bar"), end_xmp],
        ),
        case(
            "Partial end tags leading straight into partial end tags",
            "</xmp</xmp</xmp>",
            RCDATA_RAWTEXT,
            xmp,
            &[&chars("</xmp</xmp"), end_xmp],
        ),
        case(
            "End tag with incorrect name in RCDATA or RAWTEXT (starting like correct name)",
            "</foo>bar</xmpaar>",
            RCDATA_RAWTEXT,
            xmp,
            &[&chars("</foo>bar</xmpaar>")],
        ),
        case(
            "End tag closing RCDATA or RAWTEXT, switching back to PCDATA",
            "foo</xmp></baz>",
            RCDATA_RAWTEXT,
            xmp,
            &[&chars("foo"), end_xmp, "[\"EndTag\",\"baz\"]"],
        ),
        case("RAWTEXT w/ something looking like an entity", "&foo;", RAWTEXT, xmp, &[&chars("&foo;")]),
        case("RCDATA w/ an entity", "&lt;", RCDATA, Some("textarea"), &[&chars("<")]),
    ];
    run_suite(&cases, &[]);
}

#[test]
fn test_escape_flag() {
    let xmp = Some("xmp");
    let end_xmp = "[\"EndTag\",\"xmp\"]";
    let cases = vec![
        case(
            "Commented close tag in RCDATA or RAWTEXT",
            "foo<!--</xmp>--></xmp>",
            RCDATA_RAWTEXT,
            xmp,
            &[&chars("foo<!--"), end_xmp, &chars("-->"), end_xmp],
        ),
        case(
            "Bogus comment in RCDATA or RAWTEXT",
            "foo<!-->baz</xmp>",
            RCDATA_RAWTEXT,
            xmp,
            &[&chars("foo<!-->baz"), end_xmp],
        ),
        case(
            "End tag surrounded by bogus comment in RCDATA or RAWTEXT",
            "foo<!--></xmp><!-->baz</xmp>",
            RCDATA_RAWTEXT,
            xmp,
            &[&chars("foo<!-->"), end_xmp, "[\"Comment\",\"\"]", &chars("baz"), end_xmp],
        ),
        case(
            "Commented entities in RCDATA",
            " &amp; <!-- &amp; --> &amp; </xmp>",
            RCDATA,
            xmp,
            &[&chars(" & <!-- & --> & "), end_xmp],
        ),
        case(
            "Incorrect comment ending sequences in RCDATA or RAWTEXT",
            "foo<!-- x --x>x-- >x--!>x--<></xmp>",
            RCDATA_RAWTEXT,
            xmp,
            &[&chars("foo<!-- x --x>x-- >x--!>x--<>"), end_xmp],
        ),
    ];
    // Character references by name are not looked up.
    run_suite(&cases, &["Commented entities in RCDATA (RcData): other tokens"]);
}

fn test1_cases() -> Vec<Case> {
    let doctype = "[\"DOCTYPE\",\"html\",null,null,true]";
    let h = "[\"StartTag\",\"h\",{}]";
    let end_h = "[\"EndTag\",\"h\"]";
    let comment = |s: &str| format!("[\"Comment\",{}]", json_str(s));
    let cases = vec![
        case("Correct Doctype lowercase", "<!DOCTYPE html>", DATA, None, &[doctype]),
        case("Correct Doctype uppercase", "<!DOCTYPE HTML>", DATA, None, &[doctype]),
        case("Correct Doctype mixed case", "<!DOCTYPE HtMl>", DATA, None, &[doctype]),
        case("Correct Doctype case with EOF", "<!DOCTYPE HtMl", DATA, None, &["[\"DOCTYPE\",\"html\",null,null,false]"]),
        case("Truncated doctype start", "<!DOC>", DATA, None, &[&comment("DOC")]),
        case("Doctype in error", "<!DOCTYPE foo>", DATA, None, &["[\"DOCTYPE\",\"foo\",null,null,true]"]),
        case("Single Start Tag", "<h>", DATA, None, &[h]),
        case("Empty end tag", "</>", DATA, None, &[]),
        case("Empty start tag", "<>", DATA, None, &[&chars("<>")]),
        case("Start Tag w/attribute", "<h a='b'>", DATA, None, &["[\"StartTag\",\"h\",{\"a\":\"b\"}]"]),
        case("Start Tag w/attribute no quotes", "<h a=b>", DATA, None, &["[\"StartTag\",\"h\",{\"a\":\"b\"}]"]),
        case("Start/End Tag", "<h></h>", DATA, None, &[h, end_h]),
        case(
            "Two unclosed start tags",
            "<p>One<p>Two",
            DATA,
            None,
            &["[\"StartTag\",\"p\",{}]", &chars("One"), "[\"StartTag\",\"p\",{}]", &chars("Two")],
        ),
        case("End Tag w/attribute", "<h></h a='b'>", DATA, None, &[h, end_h]),
        case("Multiple atts", "<h a='b' c='d'>", DATA, None, &["[\"StartTag\",\"h\",{\"a\":\"b\",\"c\":\"d\"}]"]),
        case(
            "Multiple atts no space",
            "<h a='b'c='d'>",
            DATA,
            None,
            &["[\"StartTag\",\"h\",{\"a\":\"b\",\"c\":\"d\"}]"],
        ),
        case("Repeated attr", "<h a='b' a='d'>", DATA, None, &["[\"StartTag\",\"h\",{\"a\":\"b\"}]"]),
        case("Simple comment", "<!--comment-->", DATA, None, &[&comment("comment")]),
        case("Comment, Central dash no space", "<!----->", DATA, None, &[&comment("-")]),
        case("Comment, two central dashes", "<!-- --comment -->", DATA, None, &[&comment(" --comment ")]),
        case("Comment, central less-than bang", "<!--<!-->", DATA, None, &[&comment("<!")]),
        case("Unfinished comment", "<!--comment", DATA, None, &[&comment("comment")]),
        case("Unfinished comment after start of nested comment", "<!-- <!--", DATA, None, &[&comment(" <!")]),
        case("Start of a comment", "<!-", DATA, None, &[&comment("-")]),
        case("Short comment", "<!-->", DATA, None, &[&comment("")]),
        case("Short comment two", "<!--->", DATA, None, &[&comment("")]),
        case("Short comment three", "<!---->", DATA, None, &[&comment("")]),
        case("< in comment", "<!-- <test-->", DATA, None, &[&comment(" <test")]),
        case("<! in comment", "<!-- <!test-->", DATA, None, &[&comment(" <!test")]),
        case("<!- in comment", "<!-- <!-test-->", DATA, None, &[&comment(" <!-test")]),
        case("Nested comment", "<!-- <!--test-->", DATA, None, &[&comment(" <!--test")]),
        case("Nested comment with extra <", "<!-- <<!--test-->", DATA, None, &[&comment(" <<!--test")]),
        case("< in script data", "<test-->", SCRIPT, None, &[&chars("<test-->")]),
        case("<! in script data", "<!test-->", SCRIPT, None, &[&chars("<!test-->")]),
        case("<!- in script data", "<!-test-->", SCRIPT, None, &[&chars("<!-test-->")]),
        case("Escaped script data", "<!--test-->", SCRIPT, None, &[&chars("<!--test-->")]),
        case("< in script HTML comment", "<!-- < test -->", SCRIPT, None, &[&chars("<!-- < test -->")]),
        case("</ in script HTML comment", "<!-- </ test -->", SCRIPT, None, &[&chars("<!-- </ test -->")]),
        case("Start tag in script HTML comment", "<!-- <test> -->", SCRIPT, None, &[&chars("<!-- <test> -->")]),
        case("End tag in script HTML comment", "<!-- </test> -->", SCRIPT, None, &[&chars("<!-- </test> -->")]),
        case(
            "- in script HTML comment double escaped",
            "<!--<script>-</script>-->",
            SCRIPT,
            None,
            &[&chars("<!--<script>-</script>-->")],
        ),
        case(
            "-- in script HTML comment double escaped",
            "<!--<script>--</script>-->",
            SCRIPT,
            None,
            &[&chars("<!--<script>--</script>-->")],
        ),
        case(
            "--- in script HTML comment double escaped",
            "<!--<script>---</script>-->",
            SCRIPT,
            None,
            &[&chars("<!--<script>---</script>-->")],
        ),
        case(
            "- spaced in script HTML comment double escaped",
            "<!--<script> - </script>-->",
            SCRIPT,
            None,
            &[&chars("<!--<script> - </script>-->")],
        ),
        case(
            "-- spaced in script HTML comment double escaped",
            "<!--<script> -- </script>-->",
            SCRIPT,
            None,
            &[&chars("<!--<script> -- </script>-->")],
        ),
        case("Ampersand EOF", "&", DATA, None, &[&chars("&")]),
        case("Ampersand ampersand EOF", "&&", DATA, None, &[&chars("&&")]),
        case("Ampersand space EOF", "& ", DATA, None, &[&chars("& ")]),
        case("Unfinished entity", "&f", DATA, None, &[&chars("&f")]),
        case("Ampersand, number sign", "&#", DATA, None, &[&chars("&#")]),
        case("Unfinished numeric entity", "&#x", DATA, None, &[&chars("&#x")]),
        case("Entity with trailing semicolon (1)", "I'm &not;it", DATA, None, &[&chars("I'm \u{ac}it")]),
        case("Entity with trailing semicolon (2)", "I'm &notin;", DATA, None, &[&chars("I'm \u{2209}")]),
        case("Partial entity match at end of file", "I'm &no", DATA, None, &[&chars("I'm &no")]),
        case("Non-ASCII character reference name", "&\u{ac};", DATA, None, &[&chars("&\u{ac};")]),
        case("ASCII decimal entity", "&#0036;", DATA, None, &[&chars("$")]),
        case("ASCII hexadecimal entity", "&#x3f;", DATA, None, &[&chars("?")]),
        case(
            "Hexadecimal entity in attribute",
            "<h a='&#x3f;'></h>",
            DATA,
            None,
            &["[\"StartTag\",\"h\",{\"a\":\"?\"}]", end_h],
        ),
        case(
            "Entity in attribute without semicolon ending in x",
            "<h a='&notx'>",
            DATA,
            None,
            &["[\"StartTag\",\"h\",{\"a\":\"&notx\"}]"],
        ),
        case(
            "Entity in attribute without semicolon ending in 1",
            "<h a='&not1'>",
            DATA,
            None,
            &["[\"StartTag\",\"h\",{\"a\":\"&not1\"}]"],
        ),
        case(
            "Entity in attribute without semicolon ending in i",
            "<h a='&noti'>",
            DATA,
            None,
            &["[\"StartTag\",\"h\",{\"a\":\"&noti\"}]"],
        ),
        case(
            "Entity in attribute without semicolon",
            "<h a='&COPY'>",
            DATA,
            None,
            &["[\"StartTag\",\"h\",{\"a\":\"\u{a9}\"}]"],
        ),
        case(
            "Unquoted attribute ending in ampersand",
            "<s o=& t>",
            DATA,
            None,
            &["[\"StartTag\",\"s\",{\"o\":\"&\",\"t\":\"\"}]"],
        ),
        case(
            "Unquoted attribute at end of tag with final character of &, with tag followed by characters",
            "<a a=a&>foo",
            DATA,
            None,
            &["[\"StartTag\",\"a\",{\"a\":\"a&\"}]", &chars("foo")],
        ),
        case(
            "plaintext element",
            "<plaintext>foobar",
            DATA,
            None,
            &["[\"StartTag\",\"plaintext\",{}]", &chars("foobar")],
        ),
        case(
            "Open angled bracket in unquoted attribute value state",
            "<a a=f<>",
            DATA,
            None,
            &["[\"StartTag\",\"a\",{\"a\":\"f<\"}]"],
        ),
        case("Self-closing start tag", "<h/>", DATA, None, &["[\"StartTag\",\"h\",{},true]"]),
        case("Uppercase start tag name", "<A>", DATA, None, &["[\"StartTag\",\"a\",{}]"]),
        case("Uppercase attribute name", "<a B='c'>", DATA, None, &["[\"StartTag\",\"a\",{\"b\":\"c\"}]"]),
    ];
    cases
}

#[test]
fn test_test1() {
    let cases = test1_cases();
    // The escaped states of script data and the numeric character
    // references are not read (the tokenizer would stop the program there),
    // and character references by name are not looked up.
    let script = "(ScriptData): does not return";
    let known: Vec<String> = vec![
        format!("Escaped script data {}", script),
        format!("< in script HTML comment {}", script),
        format!("</ in script HTML comment {}", script),
        format!("Start tag in script HTML comment {}", script),
        format!("End tag in script HTML comment {}", script),
        format!("- in script HTML comment double escaped {}", script),
        format!("-- in script HTML comment double escaped {}", script),
        format!("--- in script HTML comment double escaped {}", script),
        format!("- spaced in script HTML comment double escaped {}", script),
        format!("-- spaced in script HTML comment double escaped {}", script),
        "Ampersand, number sign (Data): does not return".to_string(),
        "Unfinished numeric entity (Data): does not return".to_string(),
        "Entity with trailing semicolon (1) (Data): other tokens".to_string(),
        "Entity with trailing semicolon (2) (Data): other tokens".to_string(),
        "ASCII decimal entity (Data): does not return".to_string(),
        "ASCII hexadecimal entity (Data): does not return".to_string(),
        "Hexadecimal entity in attribute (Data): does not return".to_string(),
        "Entity in attribute without semicolon (Data): other tokens".to_string(),
    ];
    let known: Vec<&str> = known.iter().map(|s| s.as_str()).collect();
    run_suite(&cases, &known);
}

#[test]
fn test_unicode_chars() {
    let mut samples: Vec<u32> = vec![0x0009, 0x000A, 0x000C];
    samples.extend(0x0020..=0x007E);
    samples.extend(0x00A0..=0x00FF);
    samples.extend([0x0100, 0x0800, 0x0FFF, 0x1000, 0x7FFF, 0xD7FF, 0xE000, 0xF8FF, 0xFDCF, 0xFDF0, 0xFFFD]);
    samples.extend([0x10000, 0x1F600, 0x2FFFD, 0x10FFFD]);
    let mut cases = Vec::new();
    for code in samples.iter() {
        let c = char::from_u32(*code).unwrap().to_string();
        let expected = chars(&c);
        cases.push(Case {
            description: format!("Valid Unicode character U+{:04X}", code),
            input: c,
            states: DATA,
            last_start_tag: None,
            output: vec![expected],
        });
    }
    run_suite(&cases, &[]);
}

#[test]
fn full_tokenizer_test1_data_cases() {
    let mut failures = Vec::new();
    for c in test1_cases().iter().filter(|c| c.states == DATA && c.last_start_tag.is_none()) {
        failures.extend(run_case_full(c));
    }
    // Character references by name are not looked up.
    check_failures(
        failures,
        &[
            "Entity with trailing semicolon (1): other tokens",
            "Entity with trailing semicolon (2): other tokens",
            "Entity in attribute without semicolon: other tokens",
        ],
    );
}
