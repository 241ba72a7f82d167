use dyndns::envfile::{find_api_token, token_from_env_content, token_from_line};

#[test]
fn reads_quoted_token() {
    assert_eq!(token_from_line("CLOUDFLARE_API_TOKEN=\"abc123\""), Some("abc123".to_string()));
    assert_eq!(token_from_line("  CLOUDFLARE_API_TOKEN = 'xyz'  "), Some("xyz".to_string()));
    assert_eq!(token_from_line("CLOUDFLARE_API_TOKEN=plain"), Some("plain".to_string()));
}

#[test]
fn strips_double_then_single_quotes() {
    assert_eq!(token_from_line("CLOUDFLARE_API_TOKEN=\"'tok'\""), Some("tok".to_string()));
    assert_eq!(token_from_line("CLOUDFLARE_API_TOKEN='\"tok\"'"), Some("\"tok\"".to_string()));
    assert_eq!(token_from_line("CLOUDFLARE_API_TOKEN=\"\"tok\"\""), Some("tok".to_string()));
}

#[test]
fn value_may_hold_equals_signs() {
    assert_eq!(token_from_line("CLOUDFLARE_API_TOKEN=a=b"), Some("a=b".to_string()));
}

#[test]
fn ignores_comments_blank_lines_and_other_keys() {
    assert_eq!(token_from_line("# CLOUDFLARE_API_TOKEN=abc"), None);
    assert_eq!(token_from_line("   "), None);
    assert_eq!(token_from_line("OTHER_KEY=abc"), None);
    assert_eq!(token_from_line("CLOUDFLARE_API_TOKEN"), None);
    assert_eq!(token_from_line("cloudflare_api_token=abc"), None);
    assert_eq!(token_from_line("XCLOUDFLARE_API_TOKEN=abc"), None);
}

#[test]
fn empty_token_is_no_token() {
    assert_eq!(token_from_line("CLOUDFLARE_API_TOKEN="), None);
    assert_eq!(token_from_line("CLOUDFLARE_API_TOKEN=\"\""), None);
    assert_eq!(token_from_line("CLOUDFLARE_API_TOKEN=  ' '  "), Some(" ".to_string()));
}

#[test]
fn first_line_with_a_token_wins() {
    let content = "# comment\nOTHER=1\r\nCLOUDFLARE_API_TOKEN=\r\nCLOUDFLARE_API_TOKEN=\"first\"\r\nCLOUDFLARE_API_TOKEN=second\n";
    assert_eq!(token_from_env_content(content), Some("first".to_string()));
    assert_eq!(token_from_env_content(""), None);
    assert_eq!(token_from_env_content("\n\n"), None);
    assert_eq!(token_from_env_content("CLOUDFLARE_API_TOKEN=last"), Some("last".to_string()));
}

#[test]
fn file_next_to_config_takes_precedence() {
    let files = vec![
        Some("CLOUDFLARE_API_TOKEN=near".to_string()),
        Some("CLOUDFLARE_API_TOKEN=cwd".to_string()),
    ];
    assert_eq!(find_api_token(&files), Some((0, "near".to_string())));
}

#[test]
fn missing_or_tokenless_files_are_skipped() {
    let files = vec![None, Some("CLOUDFLARE_API_TOKEN=cwd".to_string())];
    assert_eq!(find_api_token(&files), Some((1, "cwd".to_string())));
    let files = vec![Some("A=b".to_string()), Some("CLOUDFLARE_API_TOKEN='x'".to_string())];
    assert_eq!(find_api_token(&files), Some((1, "x".to_string())));
    let files = vec![None, Some("# nothing".to_string())];
    assert_eq!(find_api_token(&files), None);
    assert_eq!(find_api_token(&Vec::new()), None);
}
