use sapphillon::catalog::finder_noop_plugin_function;
use sapphillon::docscan::parse_amount;
use sapphillon::jsdoc::parse_jsdoc;
use sapphillon::mail::{extract_quoted_value, folder_to_uri_pattern};
use sapphillon::search::{
    select_linux_searcher, LinuxSearcherKind, SpotlightSearcher, WalkdirSearcher,
};
use sapphillon::sysconfig::{SysConfig, TestState};
use sapphillon::workflows::DebugWorkflowFile;

#[test]
fn test() {
    let js_code = r#"
        /**
         * 2つの数値を加算します。
         *
         * @param {number} a 最初の数値
         * @param {number} b 2番目の数値
         * @returns {number} 合計を返します。
         */
        function add(a, b) {
            return a + b;
        }

        /* これはJSDocではないブロックコメント */

        /**
         * メッセージを出力します。
         * @param {string} msg 出力するメッセージ
         * @returns {void}
         */
        const log = (msg) => console.log(msg);
    "#;

    println!("--- 元のJavaScriptコード ---");
    println!("{}", js_code);
    println!("\n============================\n");

    let jsdoc_blocks = parse_jsdoc(js_code);

    for (index, block) in jsdoc_blocks.iter().enumerate() {
        println!("### JSDoc Block #{}", index + 1);
        println!("  Summary: {}", block.summary);
        println!("  Tags:");
        for tag in &block.tags {
            println!(
                "    - @{}: type={:?}, name={:?}, desc={:?}",
                tag.tag_name, tag.tag_type, tag.param_name, tag.description
            );
        }
        println!("---");
    }
}

#[test]
fn jsdoc_blocks_carry_summary_and_tags() {
    let code = "/**\n * Adds numbers.\n * @param {number} a first\n * @returns {number} the sum\n */\nfunction add(a) {}";
    let blocks = parse_jsdoc(code);
    assert_eq!(blocks.len(), 1);
    assert_eq!(blocks[0].summary, "Adds numbers.");
    assert_eq!(blocks[0].tags.len(), 2);
    assert_eq!(blocks[0].tags[0].tag_name, "param");
    assert_eq!(blocks[0].tags[0].tag_type, "number");
    assert_eq!(blocks[0].tags[0].param_name, "a");
    assert_eq!(blocks[0].tags[0].description, "first");
    assert_eq!(blocks[0].tags[1].tag_name, "returns");
    assert_eq!(blocks[0].tags[1].tag_type, "number");
    assert_eq!(blocks[0].tags[1].param_name, "the");
    assert_eq!(blocks[0].tags[1].description, "sum");
}

#[test]
fn jsdoc_ignores_plain_block_comments() {
    let blocks = parse_jsdoc("/* ordinary comment */ let x = 1;");
    assert!(blocks.is_empty());
}

#[test]
fn test_parse_amount() {
    assert_eq!(parse_amount("2,847"), Some(2847));
    assert_eq!(parse_amount("3011103003992"), None);
    assert_eq!(parse_amount("abc"), None);
}

#[test]
fn parse_amount_rejects_too_small_values() {
    assert_eq!(parse_amount("9"), None);
    assert_eq!(parse_amount("10"), Some(10));
    assert_eq!(parse_amount("100000000"), Some(100000000));
    assert_eq!(parse_amount("100000001"), None);
}

#[test]
fn test_extract_quoted_value() {
    let line = r#"user_pref("mail.identity.id1.fullName", "Test User");"#;
    let value = extract_quoted_value(line);
    assert_eq!(value, Some("Test User".to_string()));
}

#[test]
fn extract_quoted_value_needs_a_closed_nonempty_quote() {
    assert_eq!(extract_quoted_value("no quotes here"), None);
    assert_eq!(extract_quoted_value("empty \"\" at end"), None);
    assert_eq!(extract_quoted_value("one \"only"), None);
}

#[test]
fn folder_aliases_map_to_uri_patterns() {
    assert_eq!(folder_to_uri_pattern("inbox"), "%/INBOX");
    assert_eq!(folder_to_uri_pattern("INBOX"), "%/INBOX");
    assert_eq!(folder_to_uri_pattern(""), "%/INBOX");
    assert_eq!(folder_to_uri_pattern("Sent"), "%Sent%");
    assert_eq!(folder_to_uri_pattern("drafts"), "%Draft%");
    assert_eq!(folder_to_uri_pattern("Trash"), "%Trash%");
    assert_eq!(folder_to_uri_pattern("junk"), "%Spam%");
    assert_eq!(folder_to_uri_pattern("all"), "%/すべてのメール");
    assert_eq!(folder_to_uri_pattern("Archive2024"), "Archive2024");
}

#[test]
fn test_debug_workflow_file_structure() {
    let workflow = DebugWorkflowFile {
        name: "test".to_string(),
        path: "/path/to/test.js".to_string(),
        code: "console.log('hello');".to_string(),
    };

    assert_eq!(workflow.name, "test");
    assert_eq!(workflow.path, "/path/to/test.js");
    assert_eq!(workflow.code, "console.log('hello');");
}

#[test]
fn test_walkdir_is_always_available() {
    let searcher = WalkdirSearcher::new();
    assert!(searcher.is_available());
}

#[test]
fn test_noop_function_exists() {
    // Verify that the noop function can be constructed
    let _noop = finder_noop_plugin_function();
}

#[test]
fn spotlight_skips_unindexed_paths() {
    assert!(!SpotlightSearcher::is_path_indexed("/tmp/scan/file.pdf"));
    assert!(!SpotlightSearcher::is_path_indexed("/private/var/folders/x/y"));
    assert!(SpotlightSearcher::is_path_indexed("/Users/someone/Documents"));
}

#[test]
fn linux_searcher_selection_prefers_indexes() {
    assert_eq!(
        select_linux_searcher(true, true, true),
        Some(LinuxSearcherKind::Tracker)
    );
    assert_eq!(
        select_linux_searcher(false, true, true),
        Some(LinuxSearcherKind::Baloo)
    );
    assert_eq!(
        select_linux_searcher(false, false, true),
        Some(LinuxSearcherKind::Locate)
    );
    assert_eq!(select_linux_searcher(false, false, false), None);
}

#[test]
fn app_info_prints_the_banner() {
    let cfg = SysConfig {
        app_name: "Sapphillon",
        version: "0.1.0",
        authors: "Example Author",
        copyright_year: 2025,
    };
    let info = cfg.app_info();
    assert!(info.contains("Sapphillon - Version: 0.1.0"));
    assert!(info.contains("Authors: Example Author"));
    assert!(info.contains("Copyright 2025 Example Author"));
}

#[test]
fn test_state_names_the_shared_memory_database() {
    let state = TestState::new_in_memory();
    assert_eq!(state.db_url, "sqlite::memory:?cache=shared");
}
