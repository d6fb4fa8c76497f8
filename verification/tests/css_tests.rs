use chess::css::{oklch_fields, oklch_variables, select_oklch, ThemeError};
use chess::defined::board_text_is_valid;
use chess::Board;

const CSS: &str = ":root {\n  --color-primary-500: oklch(62% 0.2 250deg);\n  --color-surface-100:   oklch(95% 0.01 90) ;\n  --radius: 4px;\n}\n";

fn pair(a: &str, b: &str) -> (String, String) {
    (a.to_string(), b.to_string())
}

#[test]
fn oklch_variables_of_css() {
    let vars = oklch_variables(CSS).unwrap();
    assert_eq!(
        vars,
        vec![
            pair("color-primary-500", "oklch(62% 0.2 250deg)"),
            pair("color-surface-100", "oklch(95% 0.01 90)"),
        ]
    );
    assert_eq!(oklch_variables("no variables here").unwrap(), Vec::<(String, String)>::new());
}

#[test]
fn select_oklch_keeps_oklch_values_trimmed() {
    let caps = vec![
        (Some("a".to_string()), Some(" oklch(1 2 3)\t".to_string())),
        (Some("b".to_string()), Some("rgb(1, 2, 3)".to_string())),
        (Some("c".to_string()), Some("oklchx".to_string())),
    ];
    assert_eq!(select_oklch(&caps).unwrap(), vec![pair("a", "oklch(1 2 3)"), pair("c", "oklchx")]);
    let missing = vec![(Some("a".to_string()), None)];
    assert_eq!(select_oklch(&missing), Err(ThemeError::MissingGroup));
}

#[test]
fn oklch_field_texts() {
    assert_eq!(
        oklch_fields("oklch(62% 0.2 250deg)"),
        Some(("62".to_string(), "0.2".to_string(), "250".to_string()))
    );
    assert_eq!(
        oklch_fields("oklch(95% 0.01 90)"),
        Some(("95".to_string(), "0.01".to_string(), "90".to_string()))
    );
    assert_eq!(
        oklch_fields("oklch(  50%%  0.1   120degdeg% extra)"),
        Some(("50".to_string(), "0.1".to_string(), "120".to_string()))
    );
    assert_eq!(oklch_fields("oklch(1 2)"), None);
    assert_eq!(oklch_fields("rgb(1 2 3)"), None);
    assert_eq!(oklch_fields("oklch(1 2 3"), None);
    assert_eq!(oklch_fields("oklch()"), None);
}

#[test]
fn board_text_is_trimmed() {
    assert!(board_text_is_valid("  WKe1,BKe8\n"));
    assert!(!board_text_is_valid("  \n"));
    let board = Board::new("\n WKe1,BKe8 \n");
    assert_eq!(board.to_notation(), "WKe1,BKe8");
}
