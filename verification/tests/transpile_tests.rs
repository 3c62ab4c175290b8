use suli_pona_toki::transpile::{Emit, TranspileError, TranspileState};

fn transpile(input: &str) -> (Vec<u8>, Result<(), TranspileError>) {
    let mut state = TranspileState::new();
    let mut output = Vec::new();
    let write = |emits: Vec<Emit>, output: &mut Vec<u8>| {
        for emit in emits {
            match emit {
                Emit::Byte(b) => output.push(b),
                Emit::Text(t) => output.extend_from_slice(t.as_bytes()),
            }
        }
    };
    for &byte in input.as_bytes() {
        match state.step(byte) {
            Ok(emits) => write(emits, &mut output),
            Err((emits, e)) => {
                write(emits, &mut output);
                return (output, Err(e));
            }
        }
    }
    let end = state.finish();
    (output, end)
}

#[test]
fn test_basic_html() {
    let input = "<preserved>suli kamapa. onasu kinlu ponapa.</preserved>";
    let (output, result) = transpile(input);
    assert!(result.is_ok());
    let expected = [
        "<preserved><p>",
        "<sentence><verb><contentleaf>suli</contentleaf><contentleaf>kama</contentleaf></verb></sentence>",
        "<sentence><subject><contentleaf>ona</contentleaf></subject><verb><preposition type=\"metacommentary\"><contentleaf>kin</contentleaf></preposition><contentleaf>pona</contentleaf></verb></sentence>",
        "</p></preserved>",
    ]
    .concat();
    assert_eq!(String::from_utf8(output).unwrap(), expected);
}

#[test]
fn test_newlines() {
    let input =
        "<preserved>\n\n\nsuli kamapa. onasu kinlu ponapa.\nsuli kamapa.\n\nlinja sinsu.</preserved>";
    let (output, result) = transpile(input);
    assert!(result.is_ok());
    let expected = [
        "<preserved><p>",
        "<sentence><verb><contentleaf>suli</contentleaf><contentleaf>kama</contentleaf></verb></sentence>",
        "<sentence><subject><contentleaf>ona</contentleaf></subject><verb><preposition type=\"metacommentary\"><contentleaf>kin</contentleaf></preposition><contentleaf>pona</contentleaf></verb></sentence>",
        "<br/>",
        "<sentence><verb><contentleaf>suli</contentleaf><contentleaf>kama</contentleaf></verb></sentence>",
        "</p><p>",
        "<sentence><subject><contentleaf>linja</contentleaf><contentleaf>sin</contentleaf></subject></sentence>",
        "</p></preserved>",
    ]
    .concat();
    assert_eq!(String::from_utf8(output).unwrap(), expected);
}

#[test]
fn sentence_outside_markup_is_rendered() {
    let (output, result) = transpile("suli kamapa.");
    assert!(result.is_ok());
    assert_eq!(
        String::from_utf8(output).unwrap(),
        "<p><sentence><verb><contentleaf>suli</contentleaf><contentleaf>kama</contentleaf></verb></sentence>"
    );
}

#[test]
fn line_breaks_and_paragraphs() {
    let (output, result) = transpile("jansu lapepa.\nonasu lapepa.\n\nmisu lapepa.");
    assert!(result.is_ok());
    let s1 = "<sentence><subject><contentleaf>jan</contentleaf></subject><verb><contentleaf>lape</contentleaf></verb></sentence>";
    let s2 = "<sentence><subject><contentleaf>ona</contentleaf></subject><verb><contentleaf>lape</contentleaf></verb></sentence>";
    let s3 = "<sentence><subject><contentleaf>mi</contentleaf></subject><verb><contentleaf>lape</contentleaf></verb></sentence>";
    assert_eq!(
        String::from_utf8(output).unwrap(),
        format!("<p>{}<br/>{}</p><p>{}", s1, s2, s3)
    );
}

#[test]
fn tag_after_text_closes_the_paragraph() {
    let (output, result) = transpile("jansu lapepa.<b></b>");
    assert!(result.is_ok());
    let s1 = "<sentence><subject><contentleaf>jan</contentleaf></subject><verb><contentleaf>lape</contentleaf></verb></sentence>";
    assert_eq!(
        String::from_utf8(output).unwrap(),
        format!("<p>{}</p><b></b>", s1)
    );
}

#[test]
fn unmatched_closing_tag_is_refused() {
    let (output, result) = transpile("a>");
    assert!(output.is_empty());
    assert!(matches!(result, Err(TranspileError::UnmatchedHtmlTags((1, 3)))));
    let (output, result) = transpile(">");
    assert!(output.is_empty());
    assert!(matches!(result, Err(TranspileError::UnmatchedHtmlTags((1, 2)))));
}

#[test]
fn unfinished_sentence_before_tag_is_refused() {
    let (_, result) = transpile("jansu <b>");
    assert!(matches!(result, Err(TranspileError::ParsingError(_, (1, 8)))));
    let (_, result) = transpile("jan<b>");
    assert!(matches!(result, Err(TranspileError::TokenizationError(_, (1, 5)))));
}

#[test]
fn unfinished_sentence_at_line_end_is_refused() {
    let (_, result) = transpile("jansu \n");
    assert!(matches!(result, Err(TranspileError::ParsingError(_, (2, 1)))));
    // a line feed outside markup does not end the word being read
    let (_, result) = transpile("jansu\n");
    assert!(matches!(result, Err(TranspileError::TokenizationError(_, (2, 1)))));
}

#[test]
fn unfinished_input_is_refused_at_the_end() {
    let (_, result) = transpile("jansu lapepa");
    assert!(matches!(result, Err(TranspileError::TokenizationError(_, _))));
    let (_, result) = transpile("jansu ");
    assert!(matches!(result, Err(TranspileError::ParsingError(_, _))));
}

#[test]
fn context_and_apposition_roles() {
    let (output, result) = transpile("jansu lapepa la misu lapepa: onasu pona pa.");
    assert!(result.is_ok());
    let text = String::from_utf8(output).unwrap();
    assert!(text.contains("<sentence role=\"context\">"));
    assert!(text.contains("<sentence role=\"apposition\">"));
}

#[test]
fn read_error_position_is_next_column() {
    let mut state = TranspileState::new();
    assert!(state.counters_fit());
    assert_eq!(state.read_error_position(), (1, 2));
    assert!(state.step(b'<').is_ok());
    assert_eq!((state.line(), state.column()), (1, 2));
}

#[test]
fn tags_alone_are_copied() {
    let input = "<a\nhref=\"x\"><b></b><br/>";
    let (output, result) = transpile(input);
    assert!(result.is_ok());
    assert_eq!(String::from_utf8(output).unwrap(), input);
}
