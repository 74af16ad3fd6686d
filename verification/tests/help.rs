use diff_by_time::cli::HelpPage;
use diff_by_time::help::help_text;
use diff_by_time::i18n::I18n;

fn strip(s: &str) -> String {
    let mut out = String::new();
    let mut chars = s.chars();
    while let Some(c) = chars.next() {
        if c == '\x1b' {
            for d in chars.by_ref() {
                if d == 'm' {
                    break;
                }
            }
        } else {
            out.push(c);
        }
    }
    out
}

#[test]
fn listing_help_page() {
    let en = I18n::new("en");
    let expected = format!(
        "{}\n\n{} dt ls [QUERY] [--json]\n\n{}\n  [QUERY]  {}\n\n{}\n      --json  {}\n  -h, --help  Print help\n",
        en.t("help_ls"),
        en.t("help_label_usage"),
        en.t("help_label_arguments"),
        en.t("help_ls_query"),
        en.t("help_label_options"),
        en.t("help_ls_json"),
    );
    assert_eq!(help_text(HelpPage::Ls, &en), expected);
}

#[test]
fn overview_lists_the_subcommands() {
    let en = I18n::new("en");
    let text = strip(&help_text(HelpPage::Main, &en));
    let lines: Vec<&str> = text.lines().collect();
    assert_eq!(lines[0], en.t("help_about"));
    assert_eq!(lines[5], format!("  run    {}", en.t("help_run")));
    assert_eq!(lines[7], format!("  ls     {}", en.t("help_ls")));
    assert_eq!(lines[10], "  help   Print this message or the help of the given subcommand(s)");
    assert_eq!(lines.len(), 23);
    let unknown = strip(&help_text(HelpPage::Unknown, &en));
    assert!(!unknown.contains("  ls "));
    assert_eq!(unknown.lines().count(), 13);
}

#[test]
fn clean_pages() {
    let en = I18n::new("en");
    let modes = strip(&help_text(HelpPage::CleanModes, &en));
    assert!(modes.contains(&format!("  search  {}\n", en.t("help_clean_search"))));
    let clean = strip(&help_text(HelpPage::Clean, &en));
    assert!(clean.starts_with(&format!("{}\n\nUsage: dt clean <COMMAND>\n\nCommands:\n", en.t("help_clean"))));
    let all = help_text(HelpPage::CleanAll, &en);
    assert!(all.ends_with("  -h, --help  Print help\n"));
    assert!(!help_text(HelpPage::CleanSearch, &en).is_empty());
    assert!(help_text(HelpPage::Nothing, &en).is_empty());
}
