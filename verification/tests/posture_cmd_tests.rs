use tunnet::output::Output;
use tunnet::posture_cmd::{
    posture_check_lines, posture_status_lines, trim_quotes, PostureCheckData, PostureFailure,
    PostureResult, PostureRow,
};

fn s(x: &str) -> String {
    x.to_string()
}

#[test]
fn trim_quotes_strips_both_ends() {
    assert_eq!(trim_quotes("\"\"abc\""), "abc");
    assert_eq!(trim_quotes("\"\"\""), "");
    assert_eq!(trim_quotes("a\"b"), "a\"b");
    assert_eq!(trim_quotes("42"), "42");
}

#[test]
fn status_lines_plain() {
    let out = Output::new(false, false);
    assert_eq!(
        posture_status_lines(&out, &None),
        vec![s("Posture attributes"), s("  (none collected)")]
    );
    assert_eq!(
        posture_status_lines(&out, &Some(vec![])),
        vec![s("Posture attributes"), s("  (none collected)")]
    );
    let rows = vec![
        PostureRow { attribute: Some(s("os")), value: Some(s("\"linux\"")) },
        PostureRow { attribute: None, value: None },
        PostureRow { attribute: Some(s("disk_encrypted")), value: Some(s("true")) },
    ];
    assert_eq!(
        posture_status_lines(&out, &Some(rows)),
        vec![
            s("Posture attributes"),
            s("  os = linux"),
            s("  ? = ?"),
            s("  disk_encrypted = true")
        ]
    );
}

#[test]
fn status_lines_colored() {
    let out = Output::new(false, true);
    let rows = vec![PostureRow { attribute: Some(s("os")), value: Some(s("\"mac\"")) }];
    assert_eq!(
        posture_status_lines(&out, &Some(rows)),
        vec![s("\x1b[1mPosture attributes\x1b[0m"), s("  \x1b[36mos\x1b[0m = mac")]
    );
}

#[test]
fn check_lines_without_results() {
    let out = Output::new(false, false);
    let d = PostureCheckData {
        score: Some(73),
        results: None,
        attributes: Some(vec![(s("os"), s("\"linux\""))]),
    };
    assert_eq!(
        posture_check_lines(&out, &d),
        vec![
            s("Posture check"),
            s("  No assertions file - showing score and attributes only."),
            s("  Score: 73"),
            s("  os = \"linux\"")
        ]
    );
}

#[test]
fn check_lines_with_results() {
    let out = Output::new(false, true);
    let d = PostureCheckData {
        score: Some(91),
        results: Some(vec![
            PostureResult { name: Some(s("baseline")), passed: Some(true), failing: None },
            PostureResult {
                name: Some(s("strict")),
                passed: Some(false),
                failing: Some(vec![PostureFailure {
                    attribute: Some(s("firewall")),
                    operator: Some(s("eq")),
                }]),
            },
        ]),
        attributes: None,
    };
    assert_eq!(
        posture_check_lines(&out, &d),
        vec![
            s("\x1b[1mPosture check\x1b[0m"),
            s("  Score: \x1b[32m91\x1b[0m"),
            s("  \x1b[36mbaseline\x1b[0m \x1b[32mpass\x1b[0m"),
            s("  \x1b[36mstrict\x1b[0m \x1b[31mfail\x1b[0m"),
            s("    \x1b[2mfirewall eq\x1b[0m")
        ]
    );
}

#[test]
fn check_score_is_narrowed_to_32_bits() {
    let out = Output::new(false, false);
    let d = PostureCheckData { score: Some((1u64 << 32) + 5), results: None, attributes: None };
    let lines = posture_check_lines(&out, &d);
    assert_eq!(lines[2], "  Score: 5");
}
