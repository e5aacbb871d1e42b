use prettyterm::{
    code_for_lowercase, get_style_code, wrap_segments, join_log_lines, process_style_tags, visual_len, Branch,
    BranchStyle, ColorTheme, Component, DisplayConfig, IconsTheme, Log, LogTime, Logger,
    LoggerPrintStyle, Status, BG_BLUE, BG_GREEN, FG_GREEN, FG_RED, RESET_COLOR, STYLE_BOLD,
    STYLE_CROSSED_OUT,
};

fn config(columns: usize) -> DisplayConfig {
    DisplayConfig::new(ColorTheme::default(), IconsTheme::default(), (columns, 24))
}

#[test]
fn expand_simple_tag_exactly() {
    let expected = format!("{}Hello{}", FG_RED, RESET_COLOR);
    assert_eq!(process_style_tags("<red>Hello</red>"), expected);
}

#[test]
fn expand_combined_tag_applies_names_in_order() {
    let expected = format!("{}{}X{}", FG_RED, STYLE_BOLD, RESET_COLOR);
    assert_eq!(process_style_tags("<red|bold>X</red|bold>"), expected);
}

#[test]
fn expand_nested_close_restores_enclosing_style() {
    let expected = format!(
        "{}A{}B{}{}C{}",
        FG_RED, STYLE_BOLD, RESET_COLOR, FG_RED, RESET_COLOR
    );
    assert_eq!(process_style_tags("<red>A<bold>B</bold>C</red>"), expected);
}

#[test]
fn expand_close_without_open_is_dropped() {
    assert_eq!(process_style_tags("</red>text"), "text");
}

#[test]
fn expand_unclosed_tag_gets_final_reset() {
    assert_eq!(process_style_tags("<red>x"), format!("{}x{}", FG_RED, RESET_COLOR));
}

#[test]
fn expand_unknown_name_emits_nothing_but_close_resets() {
    assert_eq!(process_style_tags("<foo>x</foo>"), format!("x{}", RESET_COLOR));
}

#[test]
fn expand_names_ignore_case() {
    let expected = format!("{}{}x{}", BG_GREEN, STYLE_CROSSED_OUT, RESET_COLOR);
    assert_eq!(process_style_tags("<BG-Green|CrossedOut>x</X>"), expected);
}

#[test]
fn expand_empty_and_untagged_text() {
    assert_eq!(process_style_tags(""), "");
    assert_eq!(process_style_tags("plain text"), "plain text");
}

#[test]
fn expand_lone_angle_opens_empty_tag() {
    assert_eq!(process_style_tags("a<"), format!("a{}", RESET_COLOR));
    assert_eq!(process_style_tags("a<red"), format!("a{}{}", FG_RED, RESET_COLOR));
}

#[test]
fn expand_reset_count_matches_closes() {
    let out = process_style_tags("<red>a<bold>b</bold></red><green>c");
    assert_eq!(out.matches(RESET_COLOR).count(), 3);
    let out = process_style_tags("<red>a</red><green>b</green>");
    assert_eq!(out.matches(RESET_COLOR).count(), 2);
}

#[test]
fn style_code_lookup() {
    assert_eq!(get_style_code("RED"), FG_RED);
    assert_eq!(get_style_code("Bg-Blue"), BG_BLUE);
    assert_eq!(get_style_code("nothing"), "");
    assert_eq!(code_for_lowercase("green"), FG_GREEN);
    assert_eq!(code_for_lowercase("GREEN"), "");
}

#[test]
fn width_of_untagged_expansion_is_length() {
    assert_eq!(visual_len(&process_style_tags("hello world")), 11);
}

#[test]
fn width_of_escape_sequences_only_is_zero() {
    let s = format!("{}{}{}", FG_RED, BG_BLUE, RESET_COLOR);
    assert_eq!(visual_len(&s), 0);
}

#[test]
fn width_edge_cases() {
    assert_eq!(visual_len(""), 0);
    assert_eq!(visual_len("\x1b"), 1);
    assert_eq!(visual_len("\x1bx"), 2);
    assert_eq!(visual_len("\x1b[31"), 0);
    assert_eq!(visual_len("日本"), 2);
}

#[test]
fn enter_branch_from_root() {
    let root = Branch::new(DisplayConfig::default(), BranchStyle::Unicode);
    let child = root.enter_branch("Child");
    assert_eq!(child.format_indent(), "│  ");
    assert_eq!(child.branch_indent_level, 1);
    assert_eq!(root.branch_indent_level, 0);
    assert_eq!(root.entry_line("Child"), "├─ Child");
    let plain = Branch::new(DisplayConfig::default(), BranchStyle::Indent);
    assert_eq!(plain.entry_line("Child"), "╰─ Child");
    assert_eq!(plain.enter_branch("Child").format_indent(), "   ");
}

#[test]
fn table_line_fills_terminal_width() {
    let branch = Branch::new(config(30), BranchStyle::Unicode);
    let line = branch.format_table_line("hi");
    assert_eq!(line, format!("│ hi {}│", " ".repeat(24)));
    assert_eq!(visual_len(&line), 30);
    let styled = process_style_tags("<red>hi</red>");
    assert_eq!(visual_len(&branch.format_table_line(&styled)), 30);
    let deeper = branch.enter_branch("x");
    assert_eq!(visual_len(&deeper.format_table_line("hi")), 30);
}

#[test]
fn table_line_overflows_without_padding() {
    let branch = Branch::new(config(6), BranchStyle::Unicode);
    assert_eq!(branch.format_table_line("abcdef"), "│ abcdef │");
}

#[test]
fn multi_line_breaks_at_last_blank() {
    let branch = Branch::new(config(20), BranchStyle::Unicode);
    let out = branch.format_table_multi_line("aaaa bbbb cccc dddd eeee");
    let expected = format!("│ aaaa bbbb cccc   │\n│ dddd eeee {}│", " ".repeat(7));
    assert_eq!(out, expected);
}

#[test]
fn multi_line_hard_breaks_long_word() {
    let branch = Branch::new(config(20), BranchStyle::Unicode);
    let out = branch.format_table_multi_line("abcdefghijklmnopqrstuvwxyz");
    let expected = format!("│ abcdefghijklmnopq │\n│ rstuvwxyz {}│", " ".repeat(7));
    assert_eq!(out, expected);
    for row in out.lines() {
        let segment = row.trim_start_matches("│ ").trim_end_matches('│').trim_end();
        assert!(visual_len(segment) <= 17);
    }
}

#[test]
fn multi_line_trims_and_skips_blank_lines() {
    let branch = Branch::new(config(12), BranchStyle::Unicode);
    let out = branch.format_table_multi_line("  hi  \n\n   \r\nyo\n");
    assert_eq!(out, format!("│ hi {}│\n│ yo {}│", " ".repeat(6), " ".repeat(6)));
    assert_eq!(branch.format_table_multi_line(""), "");
}

#[test]
fn table_header_and_footer_exact() {
    let branch = Branch::new(DisplayConfig::default(), BranchStyle::Unicode);
    let header = branch.format_table_header("Header");
    assert_eq!(header, format!("├─ Header{} ╮", "─".repeat(69)));
    assert_eq!(visual_len(&header), 80);
    let footer = branch.format_table_footer();
    assert_eq!(footer, format!("├─{}╯", "─".repeat(77)));
    assert_eq!(visual_len(&footer), 80);
}

#[test]
fn code_line_gutter() {
    let branch = Branch::new(DisplayConfig::default(), BranchStyle::Unicode);
    assert_eq!(branch.format_code_line(7, "x", 3), "  7| x");
    assert_eq!(branch.format_code_line(12345, "x", 3), "12345| x");
    assert_eq!(branch.format_code_line(0, "", 0), "0| ");
}

#[test]
fn code_listing_numbers_lines() {
    let branch = Branch::new(config(20), BranchStyle::Unicode);
    let out = branch.format_table_code_multi_line(9, "a\r\nb\n");
    let expected = format!("│  9| a{} │\n│ 10| b{} │", " ".repeat(9), " ".repeat(9));
    assert_eq!(out, expected);
    let out = branch.format_table_code_multi_line(1, "x\ny");
    let expected = format!("│ 1| x{} │\n│ 2| y{} │", " ".repeat(10), " ".repeat(10));
    assert_eq!(out, expected);
    assert_eq!(branch.format_table_code_multi_line(1, ""), "");
}

#[test]
fn leave_and_branch_lines_at_depth() {
    let root = Branch::new(DisplayConfig::default(), BranchStyle::Unicode);
    let child = root.enter_branch("a");
    assert_eq!(child.leave_branch("Done", Status::Error), "│  ╰─ Done");
    assert_eq!(child.format_branch_line("t", "├─ "), "│  ├─ t");
}

#[test]
fn log_formats_exactly() {
    let time = LogTime::new(9, 5, 7);
    let component = Component::new("f.rs".to_string(), "g".to_string(), "/d".to_string());
    let log = Log::new(Status::Okay, "msg".to_string(), component, time);
    assert_eq!(log.format(&LoggerPrintStyle::Tiny), "Ok: msg | from f.rs-func:g, time is 9:5:7");
    assert_eq!(log.format(&LoggerPrintStyle::Flat), "Ok: msg | file f.rs | time 9:5:7");
    assert_eq!(log.format(&LoggerPrintStyle::Full), "[Ok|9:5:7][/d/f.rs-g]: msg");
}

#[test]
fn logger_keeps_given_time_and_finishes() {
    let mut logger = Logger::new(LogTime::new(1, 2, 3), true);
    logger.style = LoggerPrintStyle::Flat;
    let component = Component::new("a.rs".to_string(), "f".to_string(), "/".to_string());
    let text = logger.add_log("one".to_string(), component.clone(), Status::Warn, Some(LogTime::new(4, 5, 6)));
    assert_eq!(text.unwrap(), "Warning: one | file a.rs | time 4:5:6");
    logger.add_log("two".to_string(), component, Status::Info, None);
    assert_eq!(logger.logs[0].time, LogTime::new(4, 5, 6));
    let now = logger.logs[1].time;
    assert!(now.hour < 24 && now.minute < 60 && now.seconds < 60);
    let lines = logger.finish();
    assert!(logger.destruction_time.is_some());
    assert_eq!(lines.len(), 2);
    let joined = join_log_lines(&lines);
    assert!(joined.starts_with("Warning: one | file a.rs | time 4:5:6\nInfo: two | file a.rs"));
}

#[test]
fn quiet_logger_returns_nothing() {
    let mut logger = Logger::new(LogTime::new(0, 0, 0), false);
    let component = Component::new("a.rs".to_string(), "f".to_string(), "/".to_string());
    assert!(logger.add_log("m".to_string(), component, Status::Fatal, None).is_none());
    assert_eq!(logger.logs.len(), 1);
    assert_eq!(join_log_lines(&Vec::new()), "");
}

#[test]
fn terminal_size_fallback() {
    assert_eq!(DisplayConfig::get_terminal_size(), (80, 24));
    assert_eq!(DisplayConfig::terminal_size_or_default(None), (80, 24));
    assert_eq!(DisplayConfig::terminal_size_or_default(Some((120, 40))), (120, 40));
}

#[test]
fn wrap_segments_greedy() {
    assert_eq!(wrap_segments("aaaa bbbb cccc dddd eeee", 17), vec!["aaaa bbbb cccc", "dddd eeee"]);
    assert_eq!(wrap_segments("abcdefghij", 4), vec!["abcd", "efgh", "ij"]);
    assert_eq!(wrap_segments("ab cd", 2), vec!["ab", "", "cd"]);
    assert_eq!(wrap_segments("ab cd efg", 5), vec!["ab", "cd", "efg"]);
    assert_eq!(wrap_segments("abcd efgh", 4), vec!["abcd", "", "efgh"]);
    assert_eq!(wrap_segments("fits", 4), vec!["fits"]);
    assert!(wrap_segments("", 3).is_empty());
}

#[test]
fn multi_line_trims_unicode_white_space() {
    let branch = Branch::new(config(12), BranchStyle::Unicode);
    let out = branch.format_table_multi_line("\u{3000}hi\u{a0}\t");
    assert_eq!(out, format!("│ hi {}│", " ".repeat(6)));
}
