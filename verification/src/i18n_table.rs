//! The message tables: English and Chinese texts by message key.

use vstd::prelude::*;
use crate::text::owned;

verus! {

/// A table of (key, text) pairs as mathematical values.
pub open spec fn pairs_view(v: Seq<(String, String)>) -> Seq<(Seq<char>, Seq<char>)> {
    v.map_values(|p: (String, String)| (p.0@, p.1@))
}

/// Entries 1 to 20 of the English table.
pub open spec fn en_part0() -> Seq<(Seq<char>, Seq<char>)> {
    seq![
        ("help_about"@, "Command execution time diff tool"@),
        ("help_run"@, "Execute command and record output"@),
        ("help_run_command"@, "Command and arguments to execute (quote piped expressions)"@),
        ("help_run_diff_code"@, "Show diff against an existing short code after run"@),
        ("help_diff"@, "Compare command output differences"@),
        ("help_diff_command"@, "Command and arguments to compare (quote piped expressions)"@),
        ("help_diff_max_shown"@, "Selector viewport height (rows)"@),
        ("help_diff_linewise"@, "Compare strictly line-by-line (no cross-line alignment)"@),
        ("help_pipeline_tip"@, "When your command contains pipes, redirects, or shell operators, wrap the whole expression in quotes. Example: dt run 'ls -l | wc'."@),
        ("help_tip_run_diff_code"@, "Tip: dt run supports -d, --diff-code <CODE> — {0}"@),
        ("help_subcommand_more"@, "Run `dt <COMMAND> --help` for more details on each subcommand."@),
        ("help_config_section"@, "Config (~/.dt/config.toml):"@),
        ("help_config_tui_mode"@, "display.tui_mode: interactive | simple (interactive by default)"@),
        ("help_config_alt_screen"@, "display.alt_screen: true | false (use alternate screen in interactive mode; default: false)"@),
        ("help_clean"@, "Clean history records"@),
        ("short_code_label"@, "code"@),
        ("time_label"@, "time"@),
        ("help_clean_search"@, "Clean by command search"@),
        ("help_clean_search_arg"@, "Search query"@),
        ("help_clean_file"@, "Clean by file"@),
    ]
}

fn build_en_part0() -> (r: Vec<(String, String)>)
    ensures
        pairs_view(r@) == en_part0(),
{
    let mut v: Vec<(String, String)> = Vec::new();
    v.push((owned("help_about"), owned("Command execution time diff tool")));
    v.push((owned("help_run"), owned("Execute command and record output")));
    v.push((owned("help_run_command"), owned("Command and arguments to execute (quote piped expressions)")));
    v.push((owned("help_run_diff_code"), owned("Show diff against an existing short code after run")));
    v.push((owned("help_diff"), owned("Compare command output differences")));
    v.push((owned("help_diff_command"), owned("Command and arguments to compare (quote piped expressions)")));
    v.push((owned("help_diff_max_shown"), owned("Selector viewport height (rows)")));
    v.push((owned("help_diff_linewise"), owned("Compare strictly line-by-line (no cross-line alignment)")));
    v.push((owned("help_pipeline_tip"), owned("When your command contains pipes, redirects, or shell operators, wrap the whole expression in quotes. Example: dt run 'ls -l | wc'.")));
    v.push((owned("help_tip_run_diff_code"), owned("Tip: dt run supports -d, --diff-code <CODE> — {0}")));
    v.push((owned("help_subcommand_more"), owned("Run `dt <COMMAND> --help` for more details on each subcommand.")));
    v.push((owned("help_config_section"), owned("Config (~/.dt/config.toml):")));
    v.push((owned("help_config_tui_mode"), owned("display.tui_mode: interactive | simple (interactive by default)")));
    v.push((owned("help_config_alt_screen"), owned("display.alt_screen: true | false (use alternate screen in interactive mode; default: false)")));
    v.push((owned("help_clean"), owned("Clean history records")));
    v.push((owned("short_code_label"), owned("code")));
    v.push((owned("time_label"), owned("time")));
    v.push((owned("help_clean_search"), owned("Clean by command search")));
    v.push((owned("help_clean_search_arg"), owned("Search query")));
    v.push((owned("help_clean_file"), owned("Clean by file")));
    assert(pairs_view(v@) =~= en_part0());
    v
}

/// Entries 21 to 40 of the English table.
pub open spec fn en_part1() -> Seq<(Seq<char>, Seq<char>)> {
    seq![
        ("help_clean_file_arg"@, "File path (optional, if not provided will show related files list)"@),
        ("help_clean_all"@, "Clean all records"@),
        ("help_clean_backup"@, "Backup matching records to current year's archive"@),
        ("help_clean_dry_run"@, "List matches without deleting"@),
        ("help_ls"@, "List records (non-interactive)"@),
        ("help_ls_query"@, "Optional query to filter (substring/subsequence)"@),
        ("help_ls_json"@, "Output JSON"@),
        ("help_parse"@, "Parse a Bash snippet/file to AST (tree-sitter-bash)"@),
        ("help_parse_file"@, "File path to parse; omit to read from STDIN"@),
        ("help_parse_json"@, "Output JSON instead of outline"@),
        ("confirm_clean_all_title"@, "Dangerous operation: this will delete ALL history"@),
        ("confirm_clean_all_prompt"@, "Type YES to confirm: "@),
        ("clean_all_summary"@, "Summary: {0} different commands, {1} total records"@),
        ("confirm_clean_all_aborted"@, "Aborted. No records were deleted."@),
        ("confirm_delete_prompt"@, "Type YES to confirm (or ALL to confirm all deletions this session): "@),
        ("delete_summary_query"@, "About to delete {0} records matching: {1}"@),
        ("delete_summary_file"@, "About to delete {0} records related to file: {1}"@),
        ("delete_nothing"@, "No records matched; nothing to delete."@),
        ("dry_run_total"@, "Dry-run total: {0} records"@),
        ("backup_completed"@, "Backed up records to index_{1}.json (total now: {0})"@),
    ]
}

fn build_en_part1() -> (r: Vec<(String, String)>)
    ensures
        pairs_view(r@) == en_part1(),
{
    let mut v: Vec<(String, String)> = Vec::new();
    v.push((owned("help_clean_file_arg"), owned("File path (optional, if not provided will show related files list)")));
    v.push((owned("help_clean_all"), owned("Clean all records")));
    v.push((owned("help_clean_backup"), owned("Backup matching records to current year's archive")));
    v.push((owned("help_clean_dry_run"), owned("List matches without deleting")));
    v.push((owned("help_ls"), owned("List records (non-interactive)")));
    v.push((owned("help_ls_query"), owned("Optional query to filter (substring/subsequence)")));
    v.push((owned("help_ls_json"), owned("Output JSON")));
    v.push((owned("help_parse"), owned("Parse a Bash snippet/file to AST (tree-sitter-bash)")));
    v.push((owned("help_parse_file"), owned("File path to parse; omit to read from STDIN")));
    v.push((owned("help_parse_json"), owned("Output JSON instead of outline")));
    v.push((owned("confirm_clean_all_title"), owned("Dangerous operation: this will delete ALL history")));
    v.push((owned("confirm_clean_all_prompt"), owned("Type YES to confirm: ")));
    v.push((owned("clean_all_summary"), owned("Summary: {0} different commands, {1} total records")));
    v.push((owned("confirm_clean_all_aborted"), owned("Aborted. No records were deleted.")));
    v.push((owned("confirm_delete_prompt"), owned("Type YES to confirm (or ALL to confirm all deletions this session): ")));
    v.push((owned("delete_summary_query"), owned("About to delete {0} records matching: {1}")));
    v.push((owned("delete_summary_file"), owned("About to delete {0} records related to file: {1}")));
    v.push((owned("delete_nothing"), owned("No records matched; nothing to delete.")));
    v.push((owned("dry_run_total"), owned("Dry-run total: {0} records")));
    v.push((owned("backup_completed"), owned("Backed up records to index_{1}.json (total now: {0})")));
    assert(pairs_view(v@) =~= en_part1());
    v
}

/// Entries 41 to 60 of the English table.
pub open spec fn en_part2() -> Seq<(Seq<char>, Seq<char>)> {
    seq![
        ("command_completed"@, "Command completed, exit code: {0}"@),
        ("execution_time"@, "Execution time"@),
        ("stdout"@, "Standard output:"@),
        ("stderr"@, "Error output:"@),
        ("result_saved"@, "Result saved"@),
        ("need_at_least_two"@, "Need at least two execution records for comparison"@),
        ("diff_code_not_found"@, "No record found with short code: {0}"@),
        ("select_executions"@, "Found {0} execution records, please select two to compare:"@),
        ("input_numbers"@, "Input two numbers (space separated, e.g., 1 2):"@),
        ("invalid_input"@, "Invalid input, will use the latest two records"@),
        ("assigned_short_code"@, "Short code: {0}"@),
        ("hint_diff_with_code"@, "Tip: run again with --diff-code={0} to compare"@),
        ("select_command"@, "Select a command to compare (Enter=open, Esc=quit):"@),
        ("count_label"@, "count"@),
        ("latest_label"@, "latest"@),
        ("interactive_filter"@, "Filter (type to fuzzy search, j/k to navigate, Enter to select, Delete to clear, Esc to quit)"@),
        ("status_select_first"@, "Select first"@),
        ("status_select_second"@, "Select second"@),
        ("status_filter"@, "Filter"@),
        ("status_nav_narrow"@, "jk/PgUp page · Space sel · Tab→Prev · ?=help"@),
    ]
}

fn build_en_part2() -> (r: Vec<(String, String)>)
    ensures
        pairs_view(r@) == en_part2(),
{
    let mut v: Vec<(String, String)> = Vec::new();
    v.push((owned("command_completed"), owned("Command completed, exit code: {0}")));
    v.push((owned("execution_time"), owned("Execution time")));
    v.push((owned("stdout"), owned("Standard output:")));
    v.push((owned("stderr"), owned("Error output:")));
    v.push((owned("result_saved"), owned("Result saved")));
    v.push((owned("need_at_least_two"), owned("Need at least two execution records for comparison")));
    v.push((owned("diff_code_not_found"), owned("No record found with short code: {0}")));
    v.push((owned("select_executions"), owned("Found {0} execution records, please select two to compare:")));
    v.push((owned("input_numbers"), owned("Input two numbers (space separated, e.g., 1 2):")));
    v.push((owned("invalid_input"), owned("Invalid input, will use the latest two records")));
    v.push((owned("assigned_short_code"), owned("Short code: {0}")));
    v.push((owned("hint_diff_with_code"), owned("Tip: run again with --diff-code={0} to compare")));
    v.push((owned("select_command"), owned("Select a command to compare (Enter=open, Esc=quit):")));
    v.push((owned("count_label"), owned("count")));
    v.push((owned("latest_label"), owned("latest")));
    v.push((owned("interactive_filter"), owned("Filter (type to fuzzy search, j/k to navigate, Enter to select, Delete to clear, Esc to quit)")));
    v.push((owned("status_select_first"), owned("Select first")));
    v.push((owned("status_select_second"), owned("Select second")));
    v.push((owned("status_filter"), owned("Filter")));
    v.push((owned("status_nav_narrow"), owned("jk/PgUp page · Space sel · Tab→Prev · ?=help")));
    assert(pairs_view(v@) =~= en_part2());
    v
}

/// Entries 61 to 80 of the English table.
pub open spec fn en_part3() -> Seq<(Seq<char>, Seq<char>)> {
    seq![
        ("status_nav_medium"@, "jk/PgUp/^f/^b page · Space/Enter sel · Tab→Prev · Enter diff · ?=help"@),
        ("status_nav_compact"@, "Sel: type/jk, PgUp/PgDn or ^f/^b page, Space/Enter toggle, Tab→Preview | Prev: jk return, Shift/Ctrl+↑↓ scroll, Enter diff, q back, Q exit"@),
        ("delete_confirm_status"@, "Press Shift+Backspace or Ctrl+X again to delete run from {0}."@),
        ("delete_success_status"@, "Deleted run from {0}."@),
        ("delete_failed_status"@, "Failed to delete run: {0}"@),
        ("first_selection"@, "Select first record (press Enter to confirm):"@),
        ("second_selection"@, "Select second record (press Enter to confirm):"@),
        ("selection_complete"@, "Selected two records. Press Enter again to compare."@),
        ("selection_limit_reached"@, "Only two records can be compared at once. Deselect one to pick another."@),
        ("no_matches"@, "No matches found"@),
        ("navigate_hint"@, "Navigation — Selection: type/jk, PgUp/PgDn or Ctrl+f/b page, Space/Enter toggle, Tab → preview; Preview: jk return, Shift/Ctrl+↑/↓ scroll, Enter toggle/diff, Space/b/F or PgUp/PgDn page, q back, Q exit; Esc back/exit"@),
        ("select_clean_command"@, "Select a command to clean:"@),
        ("select_clean_file"@, "Select a file to clean:"@),
        ("no_related_files"@, "No related file records found"@),
        ("found_related_files"@, "Found following related files:"@),
        ("clean_command"@, "Use following command to clean specific file:"@),
        ("cleaned_records"@, "Cleaned {0} records"@),
        ("cleaned_all"@, "Clean completed"@),
        ("no_records"@, "No records found"@),
        ("diff_command"@, "Command: {0}"@),
    ]
}

fn build_en_part3() -> (r: Vec<(String, String)>)
    ensures
        pairs_view(r@) == en_part3(),
{
    let mut v: Vec<(String, String)> = Vec::new();
    v.push((owned("status_nav_medium"), owned("jk/PgUp/^f/^b page · Space/Enter sel · Tab→Prev · Enter diff · ?=help")));
    v.push((owned("status_nav_compact"), owned("Sel: type/jk, PgUp/PgDn or ^f/^b page, Space/Enter toggle, Tab→Preview | Prev: jk return, Shift/Ctrl+↑↓ scroll, Enter diff, q back, Q exit")));
    v.push((owned("delete_confirm_status"), owned("Press Shift+Backspace or Ctrl+X again to delete run from {0}.")));
    v.push((owned("delete_success_status"), owned("Deleted run from {0}.")));
    v.push((owned("delete_failed_status"), owned("Failed to delete run: {0}")));
    v.push((owned("first_selection"), owned("Select first record (press Enter to confirm):")));
    v.push((owned("second_selection"), owned("Select second record (press Enter to confirm):")));
    v.push((owned("selection_complete"), owned("Selected two records. Press Enter again to compare.")));
    v.push((owned("selection_limit_reached"), owned("Only two records can be compared at once. Deselect one to pick another.")));
    v.push((owned("no_matches"), owned("No matches found")));
    v.push((owned("navigate_hint"), owned("Navigation — Selection: type/jk, PgUp/PgDn or Ctrl+f/b page, Space/Enter toggle, Tab → preview; Preview: jk return, Shift/Ctrl+↑/↓ scroll, Enter toggle/diff, Space/b/F or PgUp/PgDn page, q back, Q exit; Esc back/exit")));
    v.push((owned("select_clean_command"), owned("Select a command to clean:")));
    v.push((owned("select_clean_file"), owned("Select a file to clean:")));
    v.push((owned("no_related_files"), owned("No related file records found")));
    v.push((owned("found_related_files"), owned("Found following related files:")));
    v.push((owned("clean_command"), owned("Use following command to clean specific file:")));
    v.push((owned("cleaned_records"), owned("Cleaned {0} records")));
    v.push((owned("cleaned_all"), owned("Clean completed")));
    v.push((owned("no_records"), owned("No records found")));
    v.push((owned("diff_command"), owned("Command: {0}")));
    assert(pairs_view(v@) =~= en_part3());
    v
}

/// Entries 81 to 100 of the English table.
pub open spec fn en_part4() -> Seq<(Seq<char>, Seq<char>)> {
    seq![
        ("diff_earlier"@, "Earlier ({0})"@),
        ("diff_later"@, "Later ({0})"@),
        ("diff_earlier_label"@, "Earlier"@),
        ("diff_later_label"@, "Later"@),
        ("diff_exit_code"@, "exit code: {0} -> {1}"@),
        ("diff_execution_time"@, "execution time: {0}ms -> {1}ms"@),
        ("stdout_diff"@, "stdout diff:"@),
        ("preview_stdout_header"@, "Preview: stdout"@),
        ("preview_stderr_header"@, "Preview: stderr"@),
        ("preview_diff_stdout_header"@, "Diff preview: stdout"@),
        ("preview_diff_stderr_header"@, "Diff preview: stderr"@),
        ("preview_toggle_hint"@, "Press o or ←/→ to toggle stdout/stderr"@),
        ("preview_toggle_short"@, "o/←/→ to switch"@),
        ("preview_path_label"@, "Path: {0}"@),
        ("preview_path_missing"@, "Path: unavailable"@),
        ("preview_empty"@, "Output is empty"@),
        ("preview_truncated_hint"@, "… truncated"@),
        ("preview_no_selection"@, "Select a record to preview output"@),
        ("preview_single_column_notice"@, "Terminal too narrow, using single-column view"@),
        ("terminal_too_small"@, "Terminal too small: need at least {0}x{1}, current {2}x{3}"@),
    ]
}

fn build_en_part4() -> (r: Vec<(String, String)>)
    ensures
        pairs_view(r@) == en_part4(),
{
    let mut v: Vec<(String, String)> = Vec::new();
    v.push((owned("diff_earlier"), owned("Earlier ({0})")));
    v.push((owned("diff_later"), owned("Later ({0})")));
    v.push((owned("diff_earlier_label"), owned("Earlier")));
    v.push((owned("diff_later_label"), owned("Later")));
    v.push((owned("diff_exit_code"), owned("exit code: {0} -> {1}")));
    v.push((owned("diff_execution_time"), owned("execution time: {0}ms -> {1}ms")));
    v.push((owned("stdout_diff"), owned("stdout diff:")));
    v.push((owned("preview_stdout_header"), owned("Preview: stdout")));
    v.push((owned("preview_stderr_header"), owned("Preview: stderr")));
    v.push((owned("preview_diff_stdout_header"), owned("Diff preview: stdout")));
    v.push((owned("preview_diff_stderr_header"), owned("Diff preview: stderr")));
    v.push((owned("preview_toggle_hint"), owned("Press o or ←/→ to toggle stdout/stderr")));
    v.push((owned("preview_toggle_short"), owned("o/←/→ to switch")));
    v.push((owned("preview_path_label"), owned("Path: {0}")));
    v.push((owned("preview_path_missing"), owned("Path: unavailable")));
    v.push((owned("preview_empty"), owned("Output is empty")));
    v.push((owned("preview_truncated_hint"), owned("… truncated")));
    v.push((owned("preview_no_selection"), owned("Select a record to preview output")));
    v.push((owned("preview_single_column_notice"), owned("Terminal too narrow, using single-column view")));
    v.push((owned("terminal_too_small"), owned("Terminal too small: need at least {0}x{1}, current {2}x{3}")));
    assert(pairs_view(v@) =~= en_part4());
    v
}

/// Entries 101 to 120 of the English table.
pub open spec fn en_part5() -> Seq<(Seq<char>, Seq<char>)> {
    seq![
        ("preview_help_title"@, "Preview Help"@),
        ("preview_help_move"@, "Change selection: j/k or Up/Down (returns to list and resets scroll)"@),
        ("preview_help_page"@, "Scroll: Shift/Ctrl+Up/Down (line); Space or f (down), b or Backspace (up)"@),
        ("preview_help_half"@, "Half page: d (down), u (up) or Alt+Up/Down"@),
        ("preview_help_top_bottom"@, "Top/Bottom: g/G or Home/End (Fn+Left/Right)"@),
        ("preview_help_back"@, "Back to selection: q (Esc also works)"@),
        ("preview_help_start_diff"@, "Toggle selection / start diff (2 selected): Enter"@),
        ("preview_help_toggle"@, "Toggle help: h / ?"@),
        ("preview_help_quit"@, "Quit app: Q"@),
        ("selection_help_title"@, "Selection Help"@),
        ("selection_help_filter"@, "Filter: Type to filter items (fuzzy matching)"@),
        ("selection_help_move"@, "Move: j/k or Up/Down, Ctrl+p/Ctrl+n (emacs style)"@),
        ("selection_help_page"@, "Page: PgUp/PgDn or Ctrl+b/Ctrl+f (dynamic based on terminal height)"@),
        ("selection_help_jump"@, "Jump: Home/End or Ctrl+a/Ctrl+e (top/bottom)"@),
        ("selection_help_select"@, "Select: Space or Enter to toggle (select 2 items to compare)"@),
        ("selection_help_preview"@, "Preview: Tab to enter preview pane"@),
        ("selection_help_clear"@, "Clear filter: Ctrl+u (clear all), Ctrl+w (delete word)"@),
        ("stderr_diff"@, "stderr diff:"@),
        ("output_identical"@, "output is identical"@),
        ("warning_interactive_failed"@, "Warning: Cannot enable interactive mode, falling back to simple selection mode"@),
    ]
}

fn build_en_part5() -> (r: Vec<(String, String)>)
    ensures
        pairs_view(r@) == en_part5(),
{
    let mut v: Vec<(String, String)> = Vec::new();
    v.push((owned("preview_help_title"), owned("Preview Help")));
    v.push((owned("preview_help_move"), owned("Change selection: j/k or Up/Down (returns to list and resets scroll)")));
    v.push((owned("preview_help_page"), owned("Scroll: Shift/Ctrl+Up/Down (line); Space or f (down), b or Backspace (up)")));
    v.push((owned("preview_help_half"), owned("Half page: d (down), u (up) or Alt+Up/Down")));
    v.push((owned("preview_help_top_bottom"), owned("Top/Bottom: g/G or Home/End (Fn+Left/Right)")));
    v.push((owned("preview_help_back"), owned("Back to selection: q (Esc also works)")));
    v.push((owned("preview_help_start_diff"), owned("Toggle selection / start diff (2 selected): Enter")));
    v.push((owned("preview_help_toggle"), owned("Toggle help: h / ?")));
    v.push((owned("preview_help_quit"), owned("Quit app: Q")));
    v.push((owned("selection_help_title"), owned("Selection Help")));
    v.push((owned("selection_help_filter"), owned("Filter: Type to filter items (fuzzy matching)")));
    v.push((owned("selection_help_move"), owned("Move: j/k or Up/Down, Ctrl+p/Ctrl+n (emacs style)")));
    v.push((owned("selection_help_page"), owned("Page: PgUp/PgDn or Ctrl+b/Ctrl+f (dynamic based on terminal height)")));
    v.push((owned("selection_help_jump"), owned("Jump: Home/End or Ctrl+a/Ctrl+e (top/bottom)")));
    v.push((owned("selection_help_select"), owned("Select: Space or Enter to toggle (select 2 items to compare)")));
    v.push((owned("selection_help_preview"), owned("Preview: Tab to enter preview pane")));
    v.push((owned("selection_help_clear"), owned("Clear filter: Ctrl+u (clear all), Ctrl+w (delete word)")));
    v.push((owned("stderr_diff"), owned("stderr diff:")));
    v.push((owned("output_identical"), owned("output is identical")));
    v.push((owned("warning_interactive_failed"), owned("Warning: Cannot enable interactive mode, falling back to simple selection mode")));
    assert(pairs_view(v@) =~= en_part5());
    v
}

/// Entries 121 to 140 of the English table.
pub open spec fn en_part6() -> Seq<(Seq<char>, Seq<char>)> {
    seq![
        ("month_jan"@, "Jan"@),
        ("month_feb"@, "Feb"@),
        ("month_mar"@, "Mar"@),
        ("month_apr"@, "Apr"@),
        ("month_may"@, "May"@),
        ("month_jun"@, "Jun"@),
        ("month_jul"@, "Jul"@),
        ("month_aug"@, "Aug"@),
        ("month_sep"@, "Sep"@),
        ("month_oct"@, "Oct"@),
        ("month_nov"@, "Nov"@),
        ("month_dec"@, "Dec"@),
        ("few_records_fallback"@, "Less than 2 matched records, using the latest two records"@),
        ("using_filtered_records"@, "Using the two filtered records for comparison:"@),
        ("error_create_dt_dir"@, "Failed to create .dt directory"@),
        ("error_create_records_dir"@, "Failed to create records directory"@),
        ("error_create_record_dir"@, "Failed to create record directory"@),
        ("error_save_metadata"@, "Failed to save metadata"@),
        ("error_save_stdout"@, "Failed to save stdout"@),
        ("error_save_stderr"@, "Failed to save stderr"@),
    ]
}

fn build_en_part6() -> (r: Vec<(String, String)>)
    ensures
        pairs_view(r@) == en_part6(),
{
    let mut v: Vec<(String, String)> = Vec::new();
    v.push((owned("month_jan"), owned("Jan")));
    v.push((owned("month_feb"), owned("Feb")));
    v.push((owned("month_mar"), owned("Mar")));
    v.push((owned("month_apr"), owned("Apr")));
    v.push((owned("month_may"), owned("May")));
    v.push((owned("month_jun"), owned("Jun")));
    v.push((owned("month_jul"), owned("Jul")));
    v.push((owned("month_aug"), owned("Aug")));
    v.push((owned("month_sep"), owned("Sep")));
    v.push((owned("month_oct"), owned("Oct")));
    v.push((owned("month_nov"), owned("Nov")));
    v.push((owned("month_dec"), owned("Dec")));
    v.push((owned("few_records_fallback"), owned("Less than 2 matched records, using the latest two records")));
    v.push((owned("using_filtered_records"), owned("Using the two filtered records for comparison:")));
    v.push((owned("error_create_dt_dir"), owned("Failed to create .dt directory")));
    v.push((owned("error_create_records_dir"), owned("Failed to create records directory")));
    v.push((owned("error_create_record_dir"), owned("Failed to create record directory")));
    v.push((owned("error_save_metadata"), owned("Failed to save metadata")));
    v.push((owned("error_save_stdout"), owned("Failed to save stdout")));
    v.push((owned("error_save_stderr"), owned("Failed to save stderr")));
    assert(pairs_view(v@) =~= en_part6());
    v
}

/// Entries 141 to 152 of the English table.
pub open spec fn en_part7() -> Seq<(Seq<char>, Seq<char>)> {
    seq![
        ("error_read_stdout"@, "Cannot read stdout"@),
        ("error_read_stderr"@, "Cannot read stderr"@),
        ("error_update_index"@, "Failed to update index"@),
        ("error_save_archive"@, "Failed to save {0} year archive"@),
        ("error_rebuild_index"@, "Failed to rebuild index"@),
        ("error_execute_command"@, "Failed to execute command"@),
        ("clean_record"@, "Cleaning record: {0} (time: {1})"@),
        ("clean_file_example"@, "dt clean file <file_path>"@),
        ("help_label_usage"@, "Usage:"@),
        ("help_label_commands"@, "Commands:"@),
        ("help_label_options"@, "Options:"@),
        ("help_label_arguments"@, "Arguments:"@),
    ]
}

fn build_en_part7() -> (r: Vec<(String, String)>)
    ensures
        pairs_view(r@) == en_part7(),
{
    let mut v: Vec<(String, String)> = Vec::new();
    v.push((owned("error_read_stdout"), owned("Cannot read stdout")));
    v.push((owned("error_read_stderr"), owned("Cannot read stderr")));
    v.push((owned("error_update_index"), owned("Failed to update index")));
    v.push((owned("error_save_archive"), owned("Failed to save {0} year archive")));
    v.push((owned("error_rebuild_index"), owned("Failed to rebuild index")));
    v.push((owned("error_execute_command"), owned("Failed to execute command")));
    v.push((owned("clean_record"), owned("Cleaning record: {0} (time: {1})")));
    v.push((owned("clean_file_example"), owned("dt clean file <file_path>")));
    v.push((owned("help_label_usage"), owned("Usage:")));
    v.push((owned("help_label_commands"), owned("Commands:")));
    v.push((owned("help_label_options"), owned("Options:")));
    v.push((owned("help_label_arguments"), owned("Arguments:")));
    assert(pairs_view(v@) =~= en_part7());
    v
}

/// The English message table.
pub open spec fn en_table() -> Seq<(Seq<char>, Seq<char>)> {
    en_part0() + en_part1() + en_part2() + en_part3() + en_part4() + en_part5() + en_part6() + en_part7()
}

/// Builds the English message table.
pub fn build_en_table() -> (r: Vec<(String, String)>)
    ensures
        pairs_view(r@) == en_table(),
{
    let mut v = build_en_part0();
    let mut w = build_en_part1();
    let ghost before = v@;
    v.append(&mut w);
    assert(pairs_view(v@) =~= pairs_view(before) + en_part1());
    let mut w = build_en_part2();
    let ghost before = v@;
    v.append(&mut w);
    assert(pairs_view(v@) =~= pairs_view(before) + en_part2());
    let mut w = build_en_part3();
    let ghost before = v@;
    v.append(&mut w);
    assert(pairs_view(v@) =~= pairs_view(before) + en_part3());
    let mut w = build_en_part4();
    let ghost before = v@;
    v.append(&mut w);
    assert(pairs_view(v@) =~= pairs_view(before) + en_part4());
    let mut w = build_en_part5();
    let ghost before = v@;
    v.append(&mut w);
    assert(pairs_view(v@) =~= pairs_view(before) + en_part5());
    let mut w = build_en_part6();
    let ghost before = v@;
    v.append(&mut w);
    assert(pairs_view(v@) =~= pairs_view(before) + en_part6());
    let mut w = build_en_part7();
    let ghost before = v@;
    v.append(&mut w);
    assert(pairs_view(v@) =~= pairs_view(before) + en_part7());
    v
}

/// Entries 1 to 20 of the Chinese table.
pub open spec fn zh_part0() -> Seq<(Seq<char>, Seq<char>)> {
    seq![
        ("help_about"@, "命令执行时间差比较工具"@),
        ("help_run"@, "执行命令并记录输出"@),
        ("help_run_command"@, "要执行的命令及其参数（包含管道时需整体加引号）"@),
        ("help_diff"@, "比较命令输出差异"@),
        ("help_diff_command"@, "要比较的命令及其参数（包含管道时需整体加引号）"@),
        ("help_diff_max_shown"@, "选择器视口高度（行数）"@),
        ("help_diff_linewise"@, "逐行比较（不进行跨行对齐）"@),
        ("help_pipeline_tip"@, "命令包含管道、重定向或逻辑运算符时，必须用引号包裹整条命令，例如：dt run 'ls -l | wc'。"@),
        ("help_tip_run_diff_code"@, "提示：dt run 支持 -d, --diff-code <CODE> — {0}"@),
        ("help_subcommand_more"@, "运行 `dt <命令> --help` 查看各子命令的详细说明。"@),
        ("help_config_section"@, "配置文件 (~/.dt/config.toml):"@),
        ("help_config_tui_mode"@, "display.tui_mode: interactive | simple（默认 interactive，simple 为打印文本模式）"@),
        ("help_config_alt_screen"@, "display.alt_screen: true | false（交互模式是否使用备用屏，默认 false）"@),
        ("help_clean"@, "清理历史记录"@),
        ("help_run_diff_code"@, "执行后与指定短码进行对比"@),
        ("short_code_label"@, "短码"@),
        ("time_label"@, "时间"@),
        ("help_clean_search"@, "按命令搜索清理"@),
        ("help_clean_search_arg"@, "搜索关键词"@),
        ("help_clean_file"@, "按文件清理"@),
    ]
}

fn build_zh_part0() -> (r: Vec<(String, String)>)
    ensures
        pairs_view(r@) == zh_part0(),
{
    let mut v: Vec<(String, String)> = Vec::new();
    v.push((owned("help_about"), owned("命令执行时间差比较工具")));
    v.push((owned("help_run"), owned("执行命令并记录输出")));
    v.push((owned("help_run_command"), owned("要执行的命令及其参数（包含管道时需整体加引号）")));
    v.push((owned("help_diff"), owned("比较命令输出差异")));
    v.push((owned("help_diff_command"), owned("要比较的命令及其参数（包含管道时需整体加引号）")));
    v.push((owned("help_diff_max_shown"), owned("选择器视口高度（行数）")));
    v.push((owned("help_diff_linewise"), owned("逐行比较（不进行跨行对齐）")));
    v.push((owned("help_pipeline_tip"), owned("命令包含管道、重定向或逻辑运算符时，必须用引号包裹整条命令，例如：dt run 'ls -l | wc'。")));
    v.push((owned("help_tip_run_diff_code"), owned("提示：dt run 支持 -d, --diff-code <CODE> — {0}")));
    v.push((owned("help_subcommand_more"), owned("运行 `dt <命令> --help` 查看各子命令的详细说明。")));
    v.push((owned("help_config_section"), owned("配置文件 (~/.dt/config.toml):")));
    v.push((owned("help_config_tui_mode"), owned("display.tui_mode: interactive | simple（默认 interactive，simple 为打印文本模式）")));
    v.push((owned("help_config_alt_screen"), owned("display.alt_screen: true | false（交互模式是否使用备用屏，默认 false）")));
    v.push((owned("help_clean"), owned("清理历史记录")));
    v.push((owned("help_run_diff_code"), owned("执行后与指定短码进行对比")));
    v.push((owned("short_code_label"), owned("短码")));
    v.push((owned("time_label"), owned("时间")));
    v.push((owned("help_clean_search"), owned("按命令搜索清理")));
    v.push((owned("help_clean_search_arg"), owned("搜索关键词")));
    v.push((owned("help_clean_file"), owned("按文件清理")));
    assert(pairs_view(v@) =~= zh_part0());
    v
}

/// Entries 21 to 40 of the Chinese table.
pub open spec fn zh_part1() -> Seq<(Seq<char>, Seq<char>)> {
    seq![
        ("help_clean_file_arg"@, "文件路径 (可选，不提供则显示相关文件列表)"@),
        ("help_clean_all"@, "清理所有记录"@),
        ("help_clean_backup"@, "备份匹配记录到当年的归档文件"@),
        ("help_clean_dry_run"@, "仅列出匹配结果，不执行删除"@),
        ("help_ls"@, "简洁的非交互式列表"@),
        ("help_ls_query"@, "可选的查询（子串/子序列）"@),
        ("help_ls_json"@, "输出 JSON"@),
        ("confirm_clean_all_title"@, "危险操作：将删除所有历史记录"@),
        ("confirm_clean_all_prompt"@, "请输入 YES 以确认："@),
        ("clean_all_summary"@, "汇总: {0} 个不同命令，{1} 条记录"@),
        ("confirm_clean_all_aborted"@, "已取消，未删除任何记录"@),
        ("confirm_delete_prompt"@, "请输入 YES 确认（或输入 ALL 表示本次会话内不再提示）："@),
        ("delete_summary_query"@, "将删除匹配“{1}”的 {0} 条记录"@),
        ("delete_summary_file"@, "将删除与文件相关的 {0} 条记录：{1}"@),
        ("delete_nothing"@, "没有匹配记录，无需删除。"@),
        ("dry_run_total"@, "试运行总计: {0} 条记录"@),
        ("backup_completed"@, "已备份记录到 index_{1}.json（当前总数：{0}）"@),
        ("help_label_usage"@, "用法:"@),
        ("help_label_commands"@, "命令:"@),
        ("help_label_options"@, "选项:"@),
    ]
}

fn build_zh_part1() -> (r: Vec<(String, String)>)
    ensures
        pairs_view(r@) == zh_part1(),
{
    let mut v: Vec<(String, String)> = Vec::new();
    v.push((owned("help_clean_file_arg"), owned("文件路径 (可选，不提供则显示相关文件列表)")));
    v.push((owned("help_clean_all"), owned("清理所有记录")));
    v.push((owned("help_clean_backup"), owned("备份匹配记录到当年的归档文件")));
    v.push((owned("help_clean_dry_run"), owned("仅列出匹配结果，不执行删除")));
    v.push((owned("help_ls"), owned("简洁的非交互式列表")));
    v.push((owned("help_ls_query"), owned("可选的查询（子串/子序列）")));
    v.push((owned("help_ls_json"), owned("输出 JSON")));
    v.push((owned("confirm_clean_all_title"), owned("危险操作：将删除所有历史记录")));
    v.push((owned("confirm_clean_all_prompt"), owned("请输入 YES 以确认：")));
    v.push((owned("clean_all_summary"), owned("汇总: {0} 个不同命令，{1} 条记录")));
    v.push((owned("confirm_clean_all_aborted"), owned("已取消，未删除任何记录")));
    v.push((owned("confirm_delete_prompt"), owned("请输入 YES 确认（或输入 ALL 表示本次会话内不再提示）：")));
    v.push((owned("delete_summary_query"), owned("将删除匹配“{1}”的 {0} 条记录")));
    v.push((owned("delete_summary_file"), owned("将删除与文件相关的 {0} 条记录：{1}")));
    v.push((owned("delete_nothing"), owned("没有匹配记录，无需删除。")));
    v.push((owned("dry_run_total"), owned("试运行总计: {0} 条记录")));
    v.push((owned("backup_completed"), owned("已备份记录到 index_{1}.json（当前总数：{0}）")));
    v.push((owned("help_label_usage"), owned("用法:")));
    v.push((owned("help_label_commands"), owned("命令:")));
    v.push((owned("help_label_options"), owned("选项:")));
    assert(pairs_view(v@) =~= zh_part1());
    v
}

/// Entries 41 to 60 of the Chinese table.
pub open spec fn zh_part2() -> Seq<(Seq<char>, Seq<char>)> {
    seq![
        ("help_label_arguments"@, "参数:"@),
        ("command_completed"@, "命令执行完成，退出码: {0}"@),
        ("execution_time"@, "执行时间"@),
        ("stdout"@, "标准输出:"@),
        ("stderr"@, "错误输出:"@),
        ("result_saved"@, "结果已保存"@),
        ("need_at_least_two"@, "需要至少两个执行记录才能进行比较"@),
        ("diff_code_not_found"@, "未找到短码为 {0} 的记录"@),
        ("select_executions"@, "找到 {0} 个执行记录，请选择要比较的两个:"@),
        ("input_numbers"@, "输入两个数字 (用空格分隔，例如: 1 2):"@),
        ("invalid_input"@, "无效输入，将使用最新的两个记录"@),
        ("assigned_short_code"@, "短码: {0}"@),
        ("hint_diff_with_code"@, "提示: 再次使用 --diff-code={0} 可直接比较"@),
        ("select_command"@, "选择一个命令进行比较（Enter进入，Esc退出）："@),
        ("count_label"@, "数量"@),
        ("latest_label"@, "最新"@),
        ("interactive_filter"@, "过滤器 (输入模糊搜索，j/k 导航，Enter 选择，Delete 清空，Esc 退出)"@),
        ("status_select_first"@, "选择首条"@),
        ("status_select_second"@, "选择次条"@),
        ("status_filter"@, "筛选"@),
    ]
}

fn build_zh_part2() -> (r: Vec<(String, String)>)
    ensures
        pairs_view(r@) == zh_part2(),
{
    let mut v: Vec<(String, String)> = Vec::new();
    v.push((owned("help_label_arguments"), owned("参数:")));
    v.push((owned("command_completed"), owned("命令执行完成，退出码: {0}")));
    v.push((owned("execution_time"), owned("执行时间")));
    v.push((owned("stdout"), owned("标准输出:")));
    v.push((owned("stderr"), owned("错误输出:")));
    v.push((owned("result_saved"), owned("结果已保存")));
    v.push((owned("need_at_least_two"), owned("需要至少两个执行记录才能进行比较")));
    v.push((owned("diff_code_not_found"), owned("未找到短码为 {0} 的记录")));
    v.push((owned("select_executions"), owned("找到 {0} 个执行记录，请选择要比较的两个:")));
    v.push((owned("input_numbers"), owned("输入两个数字 (用空格分隔，例如: 1 2):")));
    v.push((owned("invalid_input"), owned("无效输入，将使用最新的两个记录")));
    v.push((owned("assigned_short_code"), owned("短码: {0}")));
    v.push((owned("hint_diff_with_code"), owned("提示: 再次使用 --diff-code={0} 可直接比较")));
    v.push((owned("select_command"), owned("选择一个命令进行比较（Enter进入，Esc退出）：")));
    v.push((owned("count_label"), owned("数量")));
    v.push((owned("latest_label"), owned("最新")));
    v.push((owned("interactive_filter"), owned("过滤器 (输入模糊搜索，j/k 导航，Enter 选择，Delete 清空，Esc 退出)")));
    v.push((owned("status_select_first"), owned("选择首条")));
    v.push((owned("status_select_second"), owned("选择次条")));
    v.push((owned("status_filter"), owned("筛选")));
    assert(pairs_view(v@) =~= zh_part2());
    v
}

/// Entries 61 to 80 of the Chinese table.
pub open spec fn zh_part3() -> Seq<(Seq<char>, Seq<char>)> {
    seq![
        ("status_nav_narrow"@, "jk/PgUp翻页 · 空格选择 · Tab→预览 · ?=帮助"@),
        ("status_nav_medium"@, "jk/PgUp/^f/^b翻页 · 空格/Enter选择 · Tab→预览 · Enter比较 · ?=帮助"@),
        ("status_nav_compact"@, "选择: 输入/jk, PgUp/PgDn或^f/^b翻页, 空格/Enter切换, Tab入预览 | 预览: jk返回, Shift/Ctrl+↑↓逐行, Enter比较, q返回, Q退出"@),
        ("delete_confirm_status"@, "再次按 Shift+Backspace 或 Ctrl+X 删除 {0} 的记录。"@),
        ("delete_success_status"@, "已删除 {0} 的记录。"@),
        ("delete_failed_status"@, "删除失败：{0}"@),
        ("first_selection"@, "选择第一条记录 (按Enter确认):"@),
        ("second_selection"@, "选择第二条记录 (按Enter确认):"@),
        ("selection_complete"@, "已选择两条记录，再次按 Enter 立即对比。"@),
        ("selection_limit_reached"@, "一次最多比较两条记录，请先取消其中一条再选择其它记录。"@),
        ("no_matches"@, "没有找到匹配的记录"@),
        ("navigate_hint"@, "导航 — 选择: 输入/jk, PgUp/PgDn或Ctrl+f/b翻页, 空格/Enter 切换, Tab → 预览；预览: jk 返回, Shift/Ctrl+↑/↓ 逐行, Enter 切换/比较, 空格/b/F 或 PgUp/PgDn 翻页, q 返回, Q 退出；Esc 返回/退出"@),
        ("select_clean_command"@, "选择要清理的命令:"@),
        ("select_clean_file"@, "选择要清理的文件:"@),
        ("no_related_files"@, "没有找到相关的文件记录"@),
        ("found_related_files"@, "找到以下相关文件:"@),
        ("clean_command"@, "使用以下命令清理特定文件:"@),
        ("cleaned_records"@, "清理了 {0} 条记录"@),
        ("cleaned_all"@, "清理完成"@),
        ("no_records"@, "没有找到任何记录"@),
    ]
}

fn build_zh_part3() -> (r: Vec<(String, String)>)
    ensures
        pairs_view(r@) == zh_part3(),
{
    let mut v: Vec<(String, String)> = Vec::new();
    v.push((owned("status_nav_narrow"), owned("jk/PgUp翻页 · 空格选择 · Tab→预览 · ?=帮助")));
    v.push((owned("status_nav_medium"), owned("jk/PgUp/^f/^b翻页 · 空格/Enter选择 · Tab→预览 · Enter比较 · ?=帮助")));
    v.push((owned("status_nav_compact"), owned("选择: 输入/jk, PgUp/PgDn或^f/^b翻页, 空格/Enter切换, Tab入预览 | 预览: jk返回, Shift/Ctrl+↑↓逐行, Enter比较, q返回, Q退出")));
    v.push((owned("delete_confirm_status"), owned("再次按 Shift+Backspace 或 Ctrl+X 删除 {0} 的记录。")));
    v.push((owned("delete_success_status"), owned("已删除 {0} 的记录。")));
    v.push((owned("delete_failed_status"), owned("删除失败：{0}")));
    v.push((owned("first_selection"), owned("选择第一条记录 (按Enter确认):")));
    v.push((owned("second_selection"), owned("选择第二条记录 (按Enter确认):")));
    v.push((owned("selection_complete"), owned("已选择两条记录，再次按 Enter 立即对比。")));
    v.push((owned("selection_limit_reached"), owned("一次最多比较两条记录，请先取消其中一条再选择其它记录。")));
    v.push((owned("no_matches"), owned("没有找到匹配的记录")));
    v.push((owned("navigate_hint"), owned("导航 — 选择: 输入/jk, PgUp/PgDn或Ctrl+f/b翻页, 空格/Enter 切换, Tab → 预览；预览: jk 返回, Shift/Ctrl+↑/↓ 逐行, Enter 切换/比较, 空格/b/F 或 PgUp/PgDn 翻页, q 返回, Q 退出；Esc 返回/退出")));
    v.push((owned("select_clean_command"), owned("选择要清理的命令:")));
    v.push((owned("select_clean_file"), owned("选择要清理的文件:")));
    v.push((owned("no_related_files"), owned("没有找到相关的文件记录")));
    v.push((owned("found_related_files"), owned("找到以下相关文件:")));
    v.push((owned("clean_command"), owned("使用以下命令清理特定文件:")));
    v.push((owned("cleaned_records"), owned("清理了 {0} 条记录")));
    v.push((owned("cleaned_all"), owned("清理完成")));
    v.push((owned("no_records"), owned("没有找到任何记录")));
    assert(pairs_view(v@) =~= zh_part3());
    v
}

/// Entries 81 to 100 of the Chinese table.
pub open spec fn zh_part4() -> Seq<(Seq<char>, Seq<char>)> {
    seq![
        ("diff_command"@, "命令: {0}"@),
        ("diff_earlier"@, "较早 ({0})"@),
        ("diff_later"@, "较晚 ({0})"@),
        ("diff_earlier_label"@, "较早"@),
        ("diff_later_label"@, "较晚"@),
        ("diff_exit_code"@, "退出码: {0} -> {1}"@),
        ("diff_execution_time"@, "执行时间: {0}ms -> {1}ms"@),
        ("stdout_diff"@, "标准输出差异:"@),
        ("preview_stdout_header"@, "输出预览（stdout）"@),
        ("preview_stderr_header"@, "输出预览（stderr）"@),
        ("preview_diff_stdout_header"@, "差异预览（stdout）"@),
        ("preview_diff_stderr_header"@, "差异预览（stderr）"@),
        ("preview_toggle_hint"@, "按 o 或 ←/→ 切换 stdout/stderr"@),
        ("preview_toggle_short"@, "o/←/→ 切换"@),
        ("preview_path_label"@, "路径: {0}"@),
        ("preview_path_missing"@, "路径: 暂不可用"@),
        ("preview_empty"@, "输出为空"@),
        ("preview_truncated_hint"@, "… 内容较长，已截断"@),
        ("preview_no_selection"@, "请选择记录以查看输出预览"@),
        ("preview_single_column_notice"@, "终端宽度不足，使用单列视图"@),
    ]
}

fn build_zh_part4() -> (r: Vec<(String, String)>)
    ensures
        pairs_view(r@) == zh_part4(),
{
    let mut v: Vec<(String, String)> = Vec::new();
    v.push((owned("diff_command"), owned("命令: {0}")));
    v.push((owned("diff_earlier"), owned("较早 ({0})")));
    v.push((owned("diff_later"), owned("较晚 ({0})")));
    v.push((owned("diff_earlier_label"), owned("较早")));
    v.push((owned("diff_later_label"), owned("较晚")));
    v.push((owned("diff_exit_code"), owned("退出码: {0} -> {1}")));
    v.push((owned("diff_execution_time"), owned("执行时间: {0}ms -> {1}ms")));
    v.push((owned("stdout_diff"), owned("标准输出差异:")));
    v.push((owned("preview_stdout_header"), owned("输出预览（stdout）")));
    v.push((owned("preview_stderr_header"), owned("输出预览（stderr）")));
    v.push((owned("preview_diff_stdout_header"), owned("差异预览（stdout）")));
    v.push((owned("preview_diff_stderr_header"), owned("差异预览（stderr）")));
    v.push((owned("preview_toggle_hint"), owned("按 o 或 ←/→ 切换 stdout/stderr")));
    v.push((owned("preview_toggle_short"), owned("o/←/→ 切换")));
    v.push((owned("preview_path_label"), owned("路径: {0}")));
    v.push((owned("preview_path_missing"), owned("路径: 暂不可用")));
    v.push((owned("preview_empty"), owned("输出为空")));
    v.push((owned("preview_truncated_hint"), owned("… 内容较长，已截断")));
    v.push((owned("preview_no_selection"), owned("请选择记录以查看输出预览")));
    v.push((owned("preview_single_column_notice"), owned("终端宽度不足，使用单列视图")));
    assert(pairs_view(v@) =~= zh_part4());
    v
}

/// Entries 101 to 120 of the Chinese table.
pub open spec fn zh_part5() -> Seq<(Seq<char>, Seq<char>)> {
    seq![
        ("terminal_too_small"@, "终端尺寸过小：至少需要 {0}x{1}，当前 {2}x{3}"@),
        ("preview_help_title"@, "预览帮助"@),
        ("preview_help_move"@, "切换选中: j/k 或 上/下方向键（返回列表并重置滚动）"@),
        ("preview_help_page"@, "滚动: Shift/Ctrl+↑/↓ 逐行；空格 或 f 向下，b 或 退格 向上"@),
        ("preview_help_half"@, "半页: d 向下, u 向上 或 Alt+↑/↓"@),
        ("preview_help_top_bottom"@, "顶/底: g / G 或 Home/End (Fn+←/→)"@),
        ("preview_help_back"@, "返回选择: q（Esc 亦可）"@),
        ("preview_help_start_diff"@, "切换/对比（已选2条时）: Enter"@),
        ("preview_help_toggle"@, "切换帮助: h / ?"@),
        ("preview_help_quit"@, "退出程序: Q"@),
        ("selection_help_title"@, "选择帮助"@),
        ("selection_help_filter"@, "筛选: 输入文字进行模糊匹配筛选"@),
        ("selection_help_move"@, "移动: j/k 或 上/下, Ctrl+p/Ctrl+n (emacs 风格)"@),
        ("selection_help_page"@, "翻页: PgUp/PgDn 或 Ctrl+b/Ctrl+f (根据终端高度动态调整)"@),
        ("selection_help_jump"@, "跳转: Home/End 或 Ctrl+a/Ctrl+e (跳到顶部/底部)"@),
        ("selection_help_select"@, "选择: 空格 或 Enter 切换选中 (选择2个项目进行比较)"@),
        ("selection_help_preview"@, "预览: Tab 进入预览面板"@),
        ("selection_help_clear"@, "清除筛选: Ctrl+u (清除全部), Ctrl+w (删除单词)"@),
        ("stderr_diff"@, "错误输出差异:"@),
        ("output_identical"@, "输出完全一致"@),
    ]
}

fn build_zh_part5() -> (r: Vec<(String, String)>)
    ensures
        pairs_view(r@) == zh_part5(),
{
    let mut v: Vec<(String, String)> = Vec::new();
    v.push((owned("terminal_too_small"), owned("终端尺寸过小：至少需要 {0}x{1}，当前 {2}x{3}")));
    v.push((owned("preview_help_title"), owned("预览帮助")));
    v.push((owned("preview_help_move"), owned("切换选中: j/k 或 上/下方向键（返回列表并重置滚动）")));
    v.push((owned("preview_help_page"), owned("滚动: Shift/Ctrl+↑/↓ 逐行；空格 或 f 向下，b 或 退格 向上")));
    v.push((owned("preview_help_half"), owned("半页: d 向下, u 向上 或 Alt+↑/↓")));
    v.push((owned("preview_help_top_bottom"), owned("顶/底: g / G 或 Home/End (Fn+←/→)")));
    v.push((owned("preview_help_back"), owned("返回选择: q（Esc 亦可）")));
    v.push((owned("preview_help_start_diff"), owned("切换/对比（已选2条时）: Enter")));
    v.push((owned("preview_help_toggle"), owned("切换帮助: h / ?")));
    v.push((owned("preview_help_quit"), owned("退出程序: Q")));
    v.push((owned("selection_help_title"), owned("选择帮助")));
    v.push((owned("selection_help_filter"), owned("筛选: 输入文字进行模糊匹配筛选")));
    v.push((owned("selection_help_move"), owned("移动: j/k 或 上/下, Ctrl+p/Ctrl+n (emacs 风格)")));
    v.push((owned("selection_help_page"), owned("翻页: PgUp/PgDn 或 Ctrl+b/Ctrl+f (根据终端高度动态调整)")));
    v.push((owned("selection_help_jump"), owned("跳转: Home/End 或 Ctrl+a/Ctrl+e (跳到顶部/底部)")));
    v.push((owned("selection_help_select"), owned("选择: 空格 或 Enter 切换选中 (选择2个项目进行比较)")));
    v.push((owned("selection_help_preview"), owned("预览: Tab 进入预览面板")));
    v.push((owned("selection_help_clear"), owned("清除筛选: Ctrl+u (清除全部), Ctrl+w (删除单词)")));
    v.push((owned("stderr_diff"), owned("错误输出差异:")));
    v.push((owned("output_identical"), owned("输出完全一致")));
    assert(pairs_view(v@) =~= zh_part5());
    v
}

/// Entries 121 to 140 of the Chinese table.
pub open spec fn zh_part6() -> Seq<(Seq<char>, Seq<char>)> {
    seq![
        ("warning_interactive_failed"@, "警告: 无法启用交互式模式，回退到简单选择模式"@),
        ("few_records_fallback"@, "匹配的记录少于2个，将使用最新的两个记录"@),
        ("using_filtered_records"@, "使用过滤后的两个记录进行比较:"@),
        ("help_parse"@, "解析 Bash 片段/文件为 AST（基于 tree-sitter-bash）"@),
        ("help_parse_file"@, "解析的文件路径；缺省则从 STDIN 读取"@),
        ("help_parse_json"@, "以 JSON 输出（默认为概要树）"@),
        ("error_create_dt_dir"@, "创建 .dt 目录失败"@),
        ("error_create_records_dir"@, "创建 records 目录失败"@),
        ("error_create_record_dir"@, "创建记录目录失败"@),
        ("error_save_metadata"@, "保存元数据失败"@),
        ("error_save_stdout"@, "保存标准输出失败"@),
        ("error_save_stderr"@, "保存错误输出失败"@),
        ("error_read_stdout"@, "无法读取标准输出"@),
        ("error_read_stderr"@, "无法读取错误输出"@),
        ("error_update_index"@, "更新索引失败"@),
        ("error_save_archive"@, "保存 {0} 年归档失败"@),
        ("error_rebuild_index"@, "重建索引失败"@),
        ("error_execute_command"@, "执行命令失败"@),
        ("clean_record"@, "清理记录: {0} (时间: {1})"@),
        ("clean_file_example"@, "dt clean file <文件路径>"@),
    ]
}

fn build_zh_part6() -> (r: Vec<(String, String)>)
    ensures
        pairs_view(r@) == zh_part6(),
{
    let mut v: Vec<(String, String)> = Vec::new();
    v.push((owned("warning_interactive_failed"), owned("警告: 无法启用交互式模式，回退到简单选择模式")));
    v.push((owned("few_records_fallback"), owned("匹配的记录少于2个，将使用最新的两个记录")));
    v.push((owned("using_filtered_records"), owned("使用过滤后的两个记录进行比较:")));
    v.push((owned("help_parse"), owned("解析 Bash 片段/文件为 AST（基于 tree-sitter-bash）")));
    v.push((owned("help_parse_file"), owned("解析的文件路径；缺省则从 STDIN 读取")));
    v.push((owned("help_parse_json"), owned("以 JSON 输出（默认为概要树）")));
    v.push((owned("error_create_dt_dir"), owned("创建 .dt 目录失败")));
    v.push((owned("error_create_records_dir"), owned("创建 records 目录失败")));
    v.push((owned("error_create_record_dir"), owned("创建记录目录失败")));
    v.push((owned("error_save_metadata"), owned("保存元数据失败")));
    v.push((owned("error_save_stdout"), owned("保存标准输出失败")));
    v.push((owned("error_save_stderr"), owned("保存错误输出失败")));
    v.push((owned("error_read_stdout"), owned("无法读取标准输出")));
    v.push((owned("error_read_stderr"), owned("无法读取错误输出")));
    v.push((owned("error_update_index"), owned("更新索引失败")));
    v.push((owned("error_save_archive"), owned("保存 {0} 年归档失败")));
    v.push((owned("error_rebuild_index"), owned("重建索引失败")));
    v.push((owned("error_execute_command"), owned("执行命令失败")));
    v.push((owned("clean_record"), owned("清理记录: {0} (时间: {1})")));
    v.push((owned("clean_file_example"), owned("dt clean file <文件路径>")));
    assert(pairs_view(v@) =~= zh_part6());
    v
}

/// The Chinese message table.
pub open spec fn zh_table() -> Seq<(Seq<char>, Seq<char>)> {
    zh_part0() + zh_part1() + zh_part2() + zh_part3() + zh_part4() + zh_part5() + zh_part6()
}

/// Builds the Chinese message table.
pub fn build_zh_table() -> (r: Vec<(String, String)>)
    ensures
        pairs_view(r@) == zh_table(),
{
    let mut v = build_zh_part0();
    let mut w = build_zh_part1();
    let ghost before = v@;
    v.append(&mut w);
    assert(pairs_view(v@) =~= pairs_view(before) + zh_part1());
    let mut w = build_zh_part2();
    let ghost before = v@;
    v.append(&mut w);
    assert(pairs_view(v@) =~= pairs_view(before) + zh_part2());
    let mut w = build_zh_part3();
    let ghost before = v@;
    v.append(&mut w);
    assert(pairs_view(v@) =~= pairs_view(before) + zh_part3());
    let mut w = build_zh_part4();
    let ghost before = v@;
    v.append(&mut w);
    assert(pairs_view(v@) =~= pairs_view(before) + zh_part4());
    let mut w = build_zh_part5();
    let ghost before = v@;
    v.append(&mut w);
    assert(pairs_view(v@) =~= pairs_view(before) + zh_part5());
    let mut w = build_zh_part6();
    let ghost before = v@;
    v.append(&mut w);
    assert(pairs_view(v@) =~= pairs_view(before) + zh_part6());
    v
}

} // verus!
