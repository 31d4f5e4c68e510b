use baboon::json_text::{chimp_json_lines, chimp_json_spans, JsonRole, JsonSpan};

fn run_text(text: &str, span: &JsonSpan) -> String {
    text.chars().skip(span.start).take(span.end - span.start).collect()
}

fn line_text(line: &[(String, JsonRole)]) -> String {
    line.iter().map(|(piece, _)| piece.as_str()).collect()
}

fn run_pieces(text: &str, spans: &[JsonSpan]) -> Vec<(String, JsonRole)> {
    spans
        .iter()
        .flat_map(|span| {
            run_text(text, span)
                .split('\n')
                .filter(|piece| !piece.is_empty())
                .map(|piece| (piece.to_owned(), span.role))
                .collect::<Vec<_>>()
        })
        .collect()
}

fn roles_of(text: &str) -> Vec<(String, JsonRole)> {
    chimp_json_spans(text)
        .iter()
        .map(|span| (run_text(text, span), span.role))
        .collect()
}

#[test]
fn json_documents_have_line_numbers_and_semantic_colours() {
    let text = "{\n  \"Name\": \"Probe\",\n  \"ObjectPath\": \"/Game/Probe.0\",\n  \"Count\": 3,\n  \"Enabled\": true,\n  \"Missing\": null\n}";
    let spans = chimp_json_spans(text);
    let lines = chimp_json_lines(text, &spans);
    assert_eq!(lines.len(), 7);
    for (line, expected) in lines.iter().zip(text.lines()) {
        assert_eq!(line_text(line), expected);
    }
    // Split, every piece keeps the role it had in the whole document.
    let split: Vec<(String, JsonRole)> = lines.iter().flatten().cloned().collect();
    assert_eq!(split, run_pieces(text, &spans));
    let whole: String = spans.iter().map(|span| run_text(text, span)).collect();
    assert_eq!(whole, text);
    let mut roles = Vec::new();
    for span in &spans {
        if !roles.contains(&span.role) {
            roles.push(span.role);
        }
    }
    assert!(
        roles.len() >= 7,
        "keys, strings, paths, numbers, literals, punctuation, and whitespace need distinct roles"
    );
}

#[test]
fn keys_strings_and_paths_are_told_apart() {
    let text = "{\"Name\": \"Probe\", \"Package\": \"/Game/A\"}";
    let runs = roles_of(text);
    assert_eq!(
        runs,
        vec![
            ("{".to_owned(), JsonRole::Punctuation),
            ("\"Name\"".to_owned(), JsonRole::Key),
            (":".to_owned(), JsonRole::Punctuation),
            (" ".to_owned(), JsonRole::Plain),
            ("\"Probe\"".to_owned(), JsonRole::String),
            (",".to_owned(), JsonRole::Punctuation),
            (" ".to_owned(), JsonRole::Plain),
            ("\"Package\"".to_owned(), JsonRole::Key),
            (":".to_owned(), JsonRole::Punctuation),
            (" ".to_owned(), JsonRole::Plain),
            ("\"/Game/A\"".to_owned(), JsonRole::Path),
            ("}".to_owned(), JsonRole::Punctuation),
        ]
    );
}

#[test]
fn a_key_colours_the_values_after_it_until_the_next_key() {
    let text = "{\"SoftPath\": [\"/Game/A\", \"/Game/B\"], \"Tag\": \"x\"}";
    let runs = roles_of(text);
    let strings: Vec<(String, JsonRole)> = runs
        .into_iter()
        .filter(|(run, _)| run.starts_with('"'))
        .collect();
    assert_eq!(
        strings,
        vec![
            ("\"SoftPath\"".to_owned(), JsonRole::Key),
            ("\"/Game/A\"".to_owned(), JsonRole::Path),
            ("\"/Game/B\"".to_owned(), JsonRole::Path),
            ("\"Tag\"".to_owned(), JsonRole::Key),
            ("\"x\"".to_owned(), JsonRole::String),
        ]
    );
}

#[test]
fn escaped_quotes_stay_inside_their_string() {
    let text = "\"a\\\"b\" -1.5e+3 false nul x";
    let runs = roles_of(text);
    assert_eq!(
        runs,
        vec![
            ("\"a\\\"b\"".to_owned(), JsonRole::String),
            (" ".to_owned(), JsonRole::Plain),
            ("-1.5e+3".to_owned(), JsonRole::Number),
            (" ".to_owned(), JsonRole::Plain),
            ("false".to_owned(), JsonRole::Literal),
            (" ".to_owned(), JsonRole::Plain),
            ("n".to_owned(), JsonRole::Plain),
            ("u".to_owned(), JsonRole::Plain),
            ("l".to_owned(), JsonRole::Plain),
            (" ".to_owned(), JsonRole::Plain),
            ("x".to_owned(), JsonRole::Plain),
        ]
    );
}

#[test]
fn an_unterminated_string_runs_to_the_end() {
    let text = "[\"open";
    let runs = roles_of(text);
    assert_eq!(
        runs,
        vec![
            ("[".to_owned(), JsonRole::Punctuation),
            ("\"open".to_owned(), JsonRole::String),
        ]
    );
}

#[test]
fn empty_text_is_one_empty_line() {
    let spans = chimp_json_spans("");
    assert!(spans.is_empty());
    let lines = chimp_json_lines("", &spans);
    assert_eq!(lines.len(), 1);
    assert!(lines[0].is_empty());
}

#[test]
fn a_closing_newline_adds_no_line_but_blank_lines_stay() {
    let text = "[\n\n1\n]\n";
    let spans = chimp_json_spans(text);
    let lines = chimp_json_lines(text, &spans);
    let texts: Vec<String> = lines.iter().map(|line| line_text(line)).collect();
    let expected: Vec<String> = text.lines().map(str::to_owned).collect();
    assert_eq!(texts, expected);
    assert_eq!(texts, vec!["[", "", "1", "]"]);
    assert!(lines[1].is_empty());
}
