use akashi::ledger::{ChainError, ChainReport};
use akashi::offline::{ledger_lines, parse_failure, short_id, verdict};

fn line(number: usize, text: &str) -> (usize, String) {
    (number, text.to_string())
}

#[test]
fn lines_of_a_ledger() {
    assert_eq!(ledger_lines(""), vec![]);
    assert_eq!(ledger_lines("a"), vec![line(1, "a")]);
    assert_eq!(ledger_lines("a\nb"), vec![line(1, "a"), line(2, "b")]);
    assert_eq!(ledger_lines("a\nb\n"), vec![line(1, "a"), line(2, "b")]);
}

#[test]
fn blank_lines_count_but_are_passed_over() {
    assert_eq!(
        ledger_lines("\n  \r\n a b \r\n\t\n\u{3000}c\u{a0}"),
        vec![line(3, "a b"), line(5, "c")]
    );
}

#[test]
fn lines_agree_with_those_of_the_system() {
    for text in ["", "\n", "\r\n", "a\r\nb", "a\n\n\nb\n", " \n x\ty \n", "最初\n次"] {
        let expected: Vec<(usize, String)> = text
            .lines()
            .enumerate()
            .map(|(i, l)| (i + 1, l.trim().to_string()))
            .filter(|(_, l)| !l.is_empty())
            .collect();
        assert_eq!(ledger_lines(text), expected);
    }
}

#[test]
fn message_on_a_line_without_a_record() {
    assert_eq!(parse_failure(12, "eof"), "line 12: parse error: eof");
}

#[test]
fn ids_are_shortened() {
    assert_eq!(short_id(""), "");
    assert_eq!(short_id("sha256:ab"), "sha256:ab");
    let long = format!("sha256:{}", "0123456789".repeat(6));
    assert_eq!(short_id(&long), &long[..28]);
    assert_eq!(short_id(&long).len(), 28);
    // a cut between two characters of more than one byte
    assert_eq!(short_id(&"é".repeat(20)), "é".repeat(14));
    // a character that would end behind the cut is left out
    let odd = format!("x{}", "é".repeat(20));
    assert_eq!(short_id(&odd), format!("x{}", "é".repeat(13)));
}

#[test]
fn verdict_on_an_intact_chain() {
    let said = verdict(&ChainReport { records: 12, ok: true, errors: vec![] });
    assert_eq!(
        said.lines,
        vec![
            "records: 12",
            "RESULT: OK intact — every version's content, chain link and signature verifies",
        ]
    );
    assert_eq!(said.exit_code, 0);
}

#[test]
fn every_flawed_report_gives_code_one() {
    for id in ["".to_string(), "x".to_string(), format!("x{}", "é".repeat(20)), "証".repeat(40)] {
        let errors = vec![ChainError { index: 0, id, message: "m".to_string() }];
        assert_eq!(verdict(&ChainReport { records: 1, ok: false, errors }).exit_code, 1);
    }
    assert_eq!(verdict(&ChainReport { records: 1, ok: false, errors: vec![] }).exit_code, 1);
}

#[test]
fn verdict_on_a_tampered_chain() {
    let id = format!("sha256:{}", "ab".repeat(32));
    let error = |index: usize, message: &str| ChainError {
        index,
        id: id.clone(),
        message: message.to_string(),
    };
    let errors = vec![error(0, "signature does not verify"), error(10, "broken")];
    let said = verdict(&ChainReport { records: 11, ok: false, errors });
    assert_eq!(
        said.lines,
        vec![
            "records: 11".to_string(),
            "RESULT: TAMPERING DETECTED".to_string(),
            format!("  [#0] {} — signature does not verify", &id[..28]),
            format!("  [#10] {} — broken", &id[..28]),
        ]
    );
    assert_eq!(said.exit_code, 1);
}
