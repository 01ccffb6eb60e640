use mdp::pager::{Pager, PagerConfig};

/// Test page down - verify content scrolls down one page
#[test]
fn test_page_down() {
    // Create a pager with test content (more than one page)
    let lines: Vec<String> = (1..=50).map(|i| format!("Line {}", i)).collect();
    let mut pager = Pager::new(PagerConfig::default(), lines);

    // Initial state should show first page (lines 1-24 typically)
    let visible = pager.visible_lines();
    assert!(!visible.is_empty());
    let first_line = visible[0].clone();

    // Page down
    pager.page_down();

    // After page down, content should have scrolled
    let visible_after = pager.visible_lines();
    assert!(!visible_after.is_empty());

    // The first visible line should be different (later in the content)
    assert_ne!(first_line, visible_after[0]);
}

/// Test page up - verify content scrolls up one page
#[test]
fn test_page_up() {
    // Create a pager with test content
    let lines: Vec<String> = (1..=50).map(|i| format!("Line {}", i)).collect();
    let mut pager = Pager::new(PagerConfig::default(), lines);

    // Page down first to have content to scroll up
    pager.page_down();
    pager.page_down();

    let visible_before = pager.visible_lines();
    let first_visible_before = visible_before[0].clone();

    // Page up
    pager.page_up();

    // After page up, content should have scrolled back
    let visible_after = pager.visible_lines();
    let first_visible_after = visible_after[0].clone();

    // Should have scrolled back (first visible line should be earlier)
    assert_ne!(first_visible_before, first_visible_after);
}

/// Test progress indicator shows at bottom when there's more content
#[test]
fn test_progress_indicator() {
    // Create a pager with content that exceeds one page
    let lines: Vec<String> = (1..=50).map(|i| format!("Line {}", i)).collect();
    let config = PagerConfig {
        page_size: 24,
        ..Default::default()
    };
    let pager = Pager::new(config, lines);

    // Should show progress indicator when there's more content below
    let indicator = pager.progress_indicator();
    assert!(indicator.is_some(), "Should show progress indicator when more content below");

    // The indicator should contain "More" or similar text
    let indicator_text = indicator.unwrap();
    assert!(
        indicator_text.contains("More") || indicator_text.contains("more"),
        "Indicator should contain 'More', got: {}",
        indicator_text
    );
}

/// Test progress indicator shows line count
#[test]
fn test_progress_indicator_line_count() {
    // Create a pager with content
    let lines: Vec<String> = (1..=30).map(|i| format!("Line {}", i)).collect();
    let config = PagerConfig {
        page_size: 10,
        ..Default::default()
    };
    let pager = Pager::new(config, lines);

    let indicator = pager.progress_indicator();
    assert!(indicator.is_some());

    // Should show something like "10/30" or similar
    let indicator_text = indicator.unwrap();
    assert!(
        indicator_text.contains("10") && indicator_text.contains("30"),
        "Indicator should show position/total, got: {}",
        indicator_text
    );
}

/// Test no progress indicator when at end of content
#[test]
fn test_no_progress_indicator_at_end() {
    // Create a pager with small content that fits on one page
    let lines: Vec<String> = (1..=5).map(|i| format!("Line {}", i)).collect();
    let config = PagerConfig {
        page_size: 24,
        ..Default::default()
    };
    let pager = Pager::new(config, lines);

    // At end of content, should not show progress indicator
    let indicator = pager.progress_indicator();
    // Either None or shows "END"
    if let Some(text) = indicator {
        assert!(
            text.contains("END") || text.contains("All"),
            "Should show END when at bottom, got: {}",
            text
        );
    }
}

/// Test that page down at end of content doesn't cause issues
#[test]
fn test_page_down_at_end() {
    // Create a pager with small content
    let lines: Vec<String> = (1..=5).map(|i| format!("Line {}", i)).collect();
    let config = PagerConfig {
        page_size: 24,
        ..Default::default()
    };
    let mut pager = Pager::new(config, lines);

    // Try to page down at the end - should not panic
    pager.page_down();
    pager.page_down();

    // Should still show content
    let visible = pager.visible_lines();
    assert!(!visible.is_empty());
}

#[test]
fn test_pager_creation() {
    let lines = vec!["line1".to_string(), "line2".to_string()];
    let pager = Pager::new(PagerConfig::default(), lines);
    assert_eq!(pager.total_lines(), 2);
}

#[test]
fn test_visible_lines_initial() {
    let lines: Vec<String> = (1..=30).map(|i| format!("Line {}", i)).collect();
    let pager = Pager::new(PagerConfig::default(), lines);
    let visible = pager.visible_lines();
    assert_eq!(visible.len(), 24); // Default page size
    assert_eq!(visible[0], "Line 1");
}

#[test]
fn pager_test_page_down() {
    let lines: Vec<String> = (1..=50).map(|i| format!("Line {}", i)).collect();
    let mut pager = Pager::new(PagerConfig::default(), lines);

    let first = pager.visible_lines()[0].clone();
    pager.page_down();
    let second = pager.visible_lines()[0].clone();

    assert_eq!(first, "Line 1");
    assert!(second.contains("Line 2") || second.contains("Line 2"));
}

#[test]
fn pager_test_page_up() {
    let lines: Vec<String> = (1..=50).map(|i| format!("Line {}", i)).collect();
    let mut pager = Pager::new(PagerConfig::default(), lines);

    pager.page_down();
    pager.page_down();
    let pos_before = pager.scroll_position();

    pager.page_up();
    let pos_after = pager.scroll_position();

    assert!(pos_after < pos_before);
}

#[test]
fn test_help_mentions_reload_key() {
    let pager = Pager::new(PagerConfig::default(), vec!["line".to_string()]);
    let help = pager.help_text();
    assert!(
        help.iter()
            .any(|line| line.contains("r") && line.contains("Reload")),
        "Expected reload keybinding in help text, got: {:?}",
        help
    );
}

#[test]
fn test_navigation_sample() {
    let lines: Vec<String> = (1..=60).map(|i| format!("Line {i}")).collect();
    let config = PagerConfig {
        page_size: 10,
        ..Default::default()
    };
    let mut pager = Pager::new(config, lines);

    assert_eq!(
        pager.visible_lines().first().map(String::as_str),
        Some("Line 1")
    );

    pager.page_down();
    assert_eq!(
        pager.visible_lines().first().map(String::as_str),
        Some("Line 11")
    );

    pager.scroll_down();
    assert_eq!(
        pager.visible_lines().first().map(String::as_str),
        Some("Line 12")
    );

    pager.go_to_end();
    assert_eq!(
        pager.visible_lines().last().map(String::as_str),
        Some("Line 60")
    );

    pager.go_to_beginning();
    assert_eq!(
        pager.visible_lines().first().map(String::as_str),
        Some("Line 1")
    );
}

#[test]
fn search_finds_overlapping_matches_and_reports_byte_columns() {
    let mut pager = Pager::new(
        PagerConfig { page_size: 5, cols: 80 },
        vec!["aaa".to_string(), "héllo".to_string()],
    );
    assert_eq!(pager.search("aa"), Some((0, 0)));
    assert_eq!(pager.search_status_message(), "Search: 'aa' (1/2)");
    assert_eq!(pager.search("llo"), Some((1, 3)));
    assert_eq!(pager.search("zzz"), None);
    assert_eq!(pager.search_status_message(), "Pattern 'zzz' not found");
    assert_eq!(pager.search(""), None);
    assert_eq!(pager.search_status_message(), "");
}

#[test]
fn search_scrolls_the_match_into_view() {
    let lines: Vec<String> = (1..=50).map(|i| format!("Line {i}")).collect();
    let mut pager = Pager::new(PagerConfig { page_size: 10, cols: 80 }, lines);
    assert_eq!(pager.search("Line 30"), Some((29, 0)));
    assert_eq!(pager.scroll_position(), 24);
    let highlighted = pager.visible_lines_with_highlight();
    assert_eq!(highlighted[5], "\x1b[1mLine 30\x1b[0m");
    pager.clear_search();
    assert_eq!(pager.visible_lines_with_highlight()[5], "Line 30");
}

#[test]
fn search_starts_from_the_scroll_position_and_wraps() {
    let lines: Vec<String> = vec!["x", "a", "x", "a", "x", "x"].into_iter().map(String::from).collect();
    let mut pager = Pager::new(PagerConfig { page_size: 2, cols: 80 }, lines);
    pager.go_to_line(2);
    assert_eq!(pager.search("a"), Some((3, 0)));
    pager.go_to_line(4);
    assert_eq!(pager.search("a"), Some((1, 0)));
}

#[test]
fn overlapping_matches_are_not_repeated_when_highlighted() {
    let mut pager = Pager::new(PagerConfig { page_size: 5, cols: 80 }, vec!["aaa".to_string()]);
    pager.search("aa");
    assert_eq!(pager.visible_lines_with_highlight(), vec!["\x1b[1maa\x1b[0ma".to_string()]);
}

#[test]
fn search_next_comes_round_after_as_many_steps_as_matches() {
    let lines: Vec<String> = vec!["a x", "b", "x", "x y", "c"].into_iter().map(String::from).collect();
    let mut pager = Pager::new(PagerConfig { page_size: 2, cols: 80 }, lines);
    pager.search("x");
    let start = pager.search_status_message();
    pager.search_next();
    assert_ne!(pager.search_status_message(), start);
    pager.search_next();
    pager.search_next();
    assert_eq!(pager.search_status_message(), start);
}
