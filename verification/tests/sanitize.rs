use zeptoclaw::utils::ratio::Ratio;
use zeptoclaw::utils::sanitize::{
    compute_tool_result_budget, compute_tool_result_budget_with_share, replace_spans,
    sanitize_tool_result, shorten, take_prefix_charsafe, take_suffix_charsafe, Blob,
    DEFAULT_MAX_RESULT_BYTES, DEFAULT_TRUNCATION_HEAD_BYTES, DEFAULT_TRUNCATION_TAIL_BYTES,
    MIN_RESULT_BUDGET,
};

fn ratio(x: f64) -> Ratio {
    Ratio::from_bits(x.to_bits())
}

#[test]
fn test_no_change_for_normal_text() {
    let input = "Hello, world! This is a normal tool result.";
    assert_eq!(sanitize_tool_result(input, DEFAULT_MAX_RESULT_BYTES), input);
}

#[test]
fn test_strips_base64_data_uri() {
    let b64 = "A".repeat(500);
    let input = format!("before data:image/png;base64,{} after", b64);
    let result = sanitize_tool_result(&input, DEFAULT_MAX_RESULT_BYTES);
    assert!(!result.contains(&b64));
    assert!(result.contains("[base64 data removed,"));
    assert!(result.contains("before"));
    assert!(result.contains("after"));
    assert_eq!(result, "before [base64 data removed, 522 bytes] after");
}

#[test]
fn test_strips_hex_blob() {
    let hex = "a1b2c3d4e5f6".repeat(40);
    let input = format!("prefix {} suffix", hex);
    let result = sanitize_tool_result(&input, DEFAULT_MAX_RESULT_BYTES);
    assert!(!result.contains(&hex));
    assert!(result.contains("[hex data removed,"));
    assert!(result.contains("prefix"));
    assert!(result.contains("suffix"));
    assert_eq!(result, "prefix [hex data removed, 480 chars] suffix");
}

#[test]
fn test_short_hex_not_stripped() {
    let hex = "abcdef1234";
    let input = format!("hash: {}", hex);
    let result = sanitize_tool_result(&input, DEFAULT_MAX_RESULT_BYTES);
    assert!(result.contains(hex));
}

#[test]
fn hex_is_stripped_from_200_digits_on() {
    let short = "f".repeat(199);
    assert_eq!(sanitize_tool_result(&short, 4096), short);
    let long = "F".repeat(200);
    assert_eq!(sanitize_tool_result(&long, 4096), "[hex data removed, 200 chars]");
}

#[test]
fn what_is_no_data_uri_stays() {
    for input in [
        "data:;base64,AAAA",
        "data:image/png;base64,",
        "data:image/png;base64 ,AAAA",
        "data:image png;base64,AAAA",
        "DATA:image/png;base64,AAAA",
        "data:image/png;base65,AAAA",
    ] {
        assert_eq!(sanitize_tool_result(input, 4096), input);
    }
    assert_eq!(
        sanitize_tool_result("é data:a+b-c.d/e;base64,aZ9+/=é", 4096),
        "é [base64 data removed, 28 bytes]é"
    );
    assert_eq!(
        sanitize_tool_result("data:data:a;base64,QQ==", 4096),
        "data:[base64 data removed, 18 bytes]"
    );
}

#[test]
fn hex_inside_a_data_uri_counts_once() {
    let input = format!("data:a;base64,{}", "a".repeat(300));
    assert_eq!(sanitize_tool_result(&input, 4096), "[base64 data removed, 314 bytes]");
}

#[test]
fn test_truncation() {
    let input = "x".repeat(1000);
    let result = sanitize_tool_result(&input, 100);
    assert!(result.contains("[truncated"));
    assert!(result.contains("bytes]"));
    assert!(result.starts_with(&"x".repeat(100)));
    assert_eq!(result, format!("{}\n...[truncated 900 bytes]...", "x".repeat(100)));
}

#[test]
fn test_empty_input() {
    assert_eq!(sanitize_tool_result("", DEFAULT_MAX_RESULT_BYTES), "");
}

#[test]
fn test_multiple_base64_uris() {
    let b64 = "Q".repeat(100);
    let input = format!(
        "img1: data:image/png;base64,{} and img2: data:application/pdf;base64,{}",
        b64, b64
    );
    let result = sanitize_tool_result(&input, DEFAULT_MAX_RESULT_BYTES);
    assert!(!result.contains(&b64));
    assert_eq!(result.matches("[base64 data removed,").count(), 2);
}

#[test]
fn test_compute_budget_plenty_of_space() {
    let budget = compute_tool_result_budget(100_000, 10_000, 1, DEFAULT_MAX_RESULT_BYTES);
    assert_eq!(budget, DEFAULT_MAX_RESULT_BYTES);
}

#[test]
fn test_compute_budget_tight_space() {
    let budget = compute_tool_result_budget(100_000, 99_000, 1, DEFAULT_MAX_RESULT_BYTES);
    assert_eq!(budget, 4000);
    assert!(budget > MIN_RESULT_BUDGET);
    assert!(budget < DEFAULT_MAX_RESULT_BYTES);
}

#[test]
fn test_compute_budget_no_space() {
    let budget = compute_tool_result_budget(100_000, 100_000, 1, DEFAULT_MAX_RESULT_BYTES);
    assert_eq!(budget, MIN_RESULT_BUDGET);

    let budget = compute_tool_result_budget(100_000, 120_000, 1, DEFAULT_MAX_RESULT_BYTES);
    assert_eq!(budget, MIN_RESULT_BUDGET);
}

#[test]
fn test_compute_budget_multiple_results() {
    let budget = compute_tool_result_budget(100_000, 90_000, 4, DEFAULT_MAX_RESULT_BYTES);
    assert_eq!(budget, 10_000);
}

#[test]
fn test_compute_budget_single_result() {
    let budget = compute_tool_result_budget(100_000, 95_000, 1, DEFAULT_MAX_RESULT_BYTES);
    assert_eq!(budget, 20_000);
}

#[test]
fn test_compute_budget_zero_results() {
    let budget = compute_tool_result_budget(100_000, 50_000, 0, DEFAULT_MAX_RESULT_BYTES);
    assert_eq!(budget, DEFAULT_MAX_RESULT_BYTES);
}

#[test]
fn test_compute_budget_never_below_minimum() {
    let budget = compute_tool_result_budget(1000, 999, 10, DEFAULT_MAX_RESULT_BYTES);
    assert_eq!(budget, MIN_RESULT_BUDGET);

    let budget = compute_tool_result_budget(1000, 1000, 100, DEFAULT_MAX_RESULT_BYTES);
    assert_eq!(budget, MIN_RESULT_BUDGET);
}

#[test]
fn test_truncation_preserves_head_and_tail() {
    let input = format!("{}{}", "G".repeat(24_000), "Z".repeat(4_000));
    let result = sanitize_tool_result(&input, DEFAULT_MAX_RESULT_BYTES);
    assert!(result.starts_with(&"G".repeat(DEFAULT_TRUNCATION_HEAD_BYTES)));
    assert!(result.ends_with(&"Z".repeat(DEFAULT_TRUNCATION_TAIL_BYTES)));
    assert!(result.contains("[truncated "));
    assert!(result.contains("\n...[truncated 15712 bytes]...\n"));
}

#[test]
fn test_compute_budget_respects_custom_max() {
    let budget = compute_tool_result_budget(100_000, 10_000, 1, 8_192);
    assert_eq!(budget, 8_192);
}

#[test]
fn test_budget_with_share_caps_at_share() {
    let budget = compute_tool_result_budget_with_share(10_000, 0, 1, 20_480, ratio(0.10));
    assert_eq!(budget, 4_000);
}

#[test]
fn test_budget_with_share_uses_max_when_share_is_large() {
    let budget = compute_tool_result_budget_with_share(100_000, 0, 1, 20_480, ratio(0.50));
    assert_eq!(budget, 20_480);
}

#[test]
fn test_budget_with_share_respects_remaining_space() {
    let budget = compute_tool_result_budget_with_share(1_000, 900, 1, 20_480, ratio(0.50));
    assert_eq!(budget, MIN_RESULT_BUDGET.max(400));
}

#[test]
fn test_budget_with_share_never_below_min() {
    let budget = compute_tool_result_budget_with_share(100, 0, 1, 20_480, ratio(0.01));
    assert_eq!(budget, MIN_RESULT_BUDGET);
}

#[test]
fn test_budget_with_share_multiple_results() {
    let budget = compute_tool_result_budget_with_share(10_000, 0, 5, 20_480, ratio(0.20));
    assert_eq!(budget, 8_000);
}

#[test]
fn budget_without_a_share_takes_all_that_is_left() {
    assert_eq!(compute_tool_result_budget(1_000, 0, 1, 20_480), 4_000);
    assert_eq!(
        compute_tool_result_budget_with_share(1_000, 0, 1, 20_480, ratio(0.50)),
        2_000
    );
    assert_eq!(
        compute_tool_result_budget_with_share(1_000, 0, 1, 20_480, ratio(1.0)),
        4_000
    );
}

#[test]
fn a_share_only_lowers_the_budget() {
    for used in (0..10_000).step_by(700) {
        for pending in 0..5 {
            let plain = compute_tool_result_budget(10_000, used, pending, 30_000);
            for x in [0.0, 0.1, 0.3, 0.75, 1.0, 2.0] {
                let shared = compute_tool_result_budget_with_share(
                    10_000, used, pending, 30_000, ratio(x),
                );
                let share = (10_000.0 * x) as usize * 4;
                assert_eq!(shared, plain.min(share).max(MIN_RESULT_BUDGET));
            }
        }
    }
}

#[test]
fn budget_shrinks_with_use_and_with_pending_results() {
    let mut last = usize::MAX;
    for used in (0..100_000).step_by(1_000) {
        let budget = compute_tool_result_budget(100_000, used, 3, 60_000);
        assert!(budget <= last);
        assert!(budget >= MIN_RESULT_BUDGET && budget <= 60_000);
        last = budget;
    }
    let mut last = usize::MAX;
    for pending in 0..50 {
        let budget = compute_tool_result_budget(100_000, 50_000, pending, 60_000);
        assert!(budget <= last);
        last = budget;
    }
}

#[test]
fn budget_of_huge_limits_does_not_overflow() {
    assert_eq!(
        compute_tool_result_budget(usize::MAX, 0, 1, usize::MAX),
        usize::MAX
    );
    assert_eq!(compute_tool_result_budget(1_000_000, 0, 1, 100), MIN_RESULT_BUDGET);
}

#[test]
fn no_blob_is_left_and_a_second_pass_changes_nothing() {
    let blob = regex::Regex::new(
        "data:[a-zA-Z0-9/+\\-\\.]+;base64,[A-Za-z0-9+/=]+|[0-9a-fA-F]{200,}",
    )
    .unwrap();
    let pieces = [
        "data:", "image/png", ";base64,", "QUJD", "=", " ", "[", "é", "deadbeef", "0123456789abcdef",
    ];
    let mut seed: u64 = 7;
    for _ in 0..40 {
        let mut text = String::new();
        for _ in 0..60 {
            seed = seed.wrapping_mul(6364136223846793005).wrapping_add(1442695040888963407);
            let piece = pieces[(seed >> 33) as usize % pieces.len()];
            let times = 1 + (seed >> 20) as usize % 20;
            text.push_str(&piece.repeat(times));
        }
        for max in [0, 500, 100_000] {
            let result = sanitize_tool_result(&text, max);
            assert!(!blob.is_match(&result));
            assert!(result.len() <= max + 50);
            assert_eq!(sanitize_tool_result(&result, result.len()), result);
        }
    }
}

#[test]
fn stripping_matches_the_regular_expressions() {
    let uri = regex::Regex::new("data:[a-zA-Z0-9/+\\-\\.]+;base64,[A-Za-z0-9+/=]+").unwrap();
    let hex = regex::Regex::new("[0-9a-fA-F]{200,}").unwrap();
    let pieces =
        ["data:", "a", "/", ";base64,", ";", "base64,", "QQ", "==", " ", "é", "0f1e2d3c4b5a"];
    let mut seed: u64 = 99;
    for _ in 0..100 {
        let mut text = String::new();
        for _ in 0..40 {
            seed = seed.wrapping_mul(6364136223846793005).wrapping_add(1442695040888963407);
            let piece = pieces[(seed >> 33) as usize % pieces.len()];
            text.push_str(&piece.repeat(1 + (seed >> 20) as usize % 18));
        }
        let first = uri.replace_all(&text, |c: &regex::Captures| {
            format!("[base64 data removed, {} bytes]", c[0].len())
        });
        let second = hex.replace_all(&first, |c: &regex::Captures| {
            format!("[hex data removed, {} chars]", c[0].len())
        });
        assert_eq!(sanitize_tool_result(&text, usize::MAX), second);
    }
}

#[test]
fn spans_are_replaced_by_their_sizes() {
    let text = format!("x{}y{}", "a".repeat(200), "b".repeat(201));
    assert_eq!(
        replace_spans(Blob::Hex, &text, &vec![(1, 201), (202, 403)]),
        "x[hex data removed, 200 chars]y[hex data removed, 201 chars]"
    );
    assert_eq!(replace_spans(Blob::Base64Uri, "plain", &vec![]), "plain");
}

#[test]
fn a_limit_cuts_what_there_is_without_one() {
    let text = format!("{}é data:a;base64,QQ== {}", "s".repeat(11_000), "z".repeat(3_000));
    let whole = sanitize_tool_result(&text, usize::MAX);
    assert_eq!(
        whole,
        format!("{}é [base64 data removed, 18 bytes] {}", "s".repeat(11_000), "z".repeat(3_000))
    );
    assert_eq!(sanitize_tool_result(&text, whole.len()), whole);
    assert_eq!(sanitize_tool_result(&whole, whole.len()), whole);
    let cut = sanitize_tool_result(&text, 12_300);
    let dropped = whole.len() - 10_240 - 2_048;
    assert_eq!(
        cut,
        format!(
            "{}\n...[truncated {} bytes]...\n{}",
            "s".repeat(10_240),
            dropped,
            "z".repeat(2_048)
        )
    );
}

#[test]
fn shortening_keeps_characters_whole() {
    let text = "é".repeat(20);
    assert_eq!(shorten(&text, 40), text);
    assert_eq!(shorten(&text, 5), "éé\n...[truncated 36 bytes]...");
    assert_eq!(shorten(&text, 0), "\n...[truncated 40 bytes]...");
    let long = "é".repeat(8_000);
    let result = shorten(&long, 12_289);
    assert!(result.starts_with(&"é".repeat(5_120)));
    assert!(result.ends_with(&"é".repeat(1_024)));
    assert!(result.contains("\n...[truncated 3712 bytes]...\n"));
    assert_eq!(take_prefix_charsafe("aé", 2), "a");
    assert_eq!(take_suffix_charsafe("éa", 2), "a");
}
