//! The report that compares two runs of a command: the command, when each
//! run happened, exit codes and durations, then the differences of the
//! outputs.

use vstd::prelude::*;
use vstd::utf8::encode_utf8;
use crate::calendar::{local_string, local_text_ok, valid_ts};
use crate::i18n::{fill, I18n};
use crate::storage::CommandExecution;
use crate::text::{dec_digits, decimal, owned, push_char, push_str, same_text, signed_decimal, signed_digits};
use crate::textdiff::{
    bold_cyan, bold_green, bold_red, bold_yellow, colored_text, displayed_changes, green,
    linewise_entries, paint_bold_cyan, paint_bold_green, paint_bold_red, paint_bold_yellow,
    paint_green, paint_red, red, shown,
};

verus! {

/// Shows command outputs and their differences.
pub struct Differ;

/// `label` padded with spaces to `width` characters.
pub open spec fn padded(label: Seq<char>, width: int) -> Seq<char> {
    if label.len() < width {
        label + Seq::new((width - label.len()) as nat, |i: int| ' ')
    } else {
        label
    }
}

/// The larger of two integers.
pub open spec fn larger(a: int, b: int) -> int {
    if a >= b {
        a
    } else {
        b
    }
}

/// The line that says when a run happened: a sign, the padded label, the
/// time, and the short code when the run has one.
pub open spec fn stamp_line(
    sign: char,
    label: Seq<char>,
    width: int,
    time: Seq<char>,
    code: Seq<char>,
    code_label: Seq<char>,
) -> Seq<char> {
    seq![sign, ' '] + padded(label, width) + ": "@ + time + if code.len() > 0 {
        " ["@ + code_label + ": "@ + code + "]"@
    } else {
        Seq::<char>::empty()
    }
}

/// The short code of a run, empty when it has none.
pub open spec fn code_of(e: CommandExecution) -> Seq<char> {
    match e.record.short_code {
        Some(c) => c@,
        None => Seq::<char>::empty(),
    }
}

/// `body` is how the differences of two outputs appear: line by line, or
/// aligned by `similar`.
pub open spec fn body_ok(old: Seq<char>, new: Seq<char>, linewise: bool, body: Seq<char>) -> bool {
    if linewise {
        colored_text(linewise_entries(old, new), seq!['\n'], body)
    } else {
        colored_text(displayed_changes(old, new), Seq::<char>::empty(), body)
    }
}

/// The report text, given how each styled piece appears (`p`) and the two
/// difference bodies.
pub open spec fn report_text(
    e: CommandExecution,
    l: CommandExecution,
    i18n: I18n,
    p: Seq<Seq<char>>,
    b1: Seq<char>,
    b2: Seq<char>,
) -> Seq<char> {
    let nl = seq!['\n'];
    p[0] + nl + p[1] + nl + p[2] + nl + (if e.record.exit_code != l.record.exit_code {
        fill(
            i18n.text_for("diff_exit_code"@),
            seq![signed_digits(e.record.exit_code as int), signed_digits(l.record.exit_code as int)],
        ) + nl
    } else {
        Seq::<char>::empty()
    }) + fill(
        i18n.text_for("diff_execution_time"@),
        seq![dec_digits(e.record.duration_ms as nat), dec_digits(l.record.duration_ms as nat)],
    ) + nl + nl + (if e.stdout@ != l.stdout@ {
        p[3] + nl + b1 + nl
    } else {
        Seq::<char>::empty()
    }) + (if e.stderr@ != l.stderr@ {
        p[4] + nl + b2 + nl
    } else {
        Seq::<char>::empty()
    }) + (if e.stdout@ == l.stdout@ && e.stderr@ == l.stderr@ {
        p[5] + nl
    } else {
        Seq::<char>::empty()
    })
}

/// `out` is the report comparing the earlier run `e` with the later run
/// `l`, whose times read `t1` and `t2`: the command (bold cyan); when each
/// run happened (red, green), labels padded to the same width; the exit
/// codes when they differ; the durations; a blank line; then for standard
/// output and standard error that differ, a title (bold yellow, bold red)
/// and their differences; or, when both are the same, a note (bold green).
pub open spec fn report_ok(
    e: CommandExecution,
    l: CommandExecution,
    i18n: I18n,
    t1: Seq<char>,
    t2: Seq<char>,
    linewise: bool,
    out: Seq<char>,
) -> bool {
    let el = i18n.text_for("diff_earlier_label"@);
    let ll = i18n.text_for("diff_later_label"@);
    let w = larger(encode_utf8(el).len() as int, encode_utf8(ll).len() as int);
    let cl = i18n.text_for("short_code_label"@);
    exists|p: Seq<Seq<char>>, b1: Seq<char>, b2: Seq<char>|
        {
            &&& p.len() == 6
            &&& shown(p[0], fill(i18n.text_for("diff_command"@), seq![l.record.command@]), bold_cyan())
            &&& shown(p[1], stamp_line('-', el, w, t1, code_of(e), cl), red())
            &&& shown(p[2], stamp_line('+', ll, w, t2, code_of(l), cl), green())
            &&& (e.stdout@ != l.stdout@ ==> shown(p[3], i18n.text_for("stdout_diff"@), bold_yellow())
                && body_ok(e.stdout@, l.stdout@, linewise, b1))
            &&& (e.stderr@ != l.stderr@ ==> shown(p[4], i18n.text_for("stderr_diff"@), bold_red())
                && body_ok(e.stderr@, l.stderr@, linewise, b2))
            &&& (e.stdout@ == l.stdout@ && e.stderr@ == l.stderr@ ==> shown(
                p[5],
                i18n.text_for("output_identical"@),
                bold_green(),
            ))
            &&& out == report_text(e, l, i18n, p, b1, b2)
        }
}

/// `label` padded with spaces to `width` characters.
fn pad_to(label: &str, width: usize) -> (r: String)
    ensures
        r@ == padded(label@, width as int),
{
    let mut r = owned(label);
    let n = crate::text::chars_of(label).len();
    let mut k = n;
    assert(r@ =~= label@ + Seq::new((k - n) as nat, |i: int| ' '));
    while k < width
        invariant
            n == label@.len(),
            n <= k,
            n < width ==> k <= width,
            n >= width ==> k == n,
            r@ == label@ + Seq::new((k - n) as nat, |i: int| ' '),
        decreases width - k,
    {
        push_char(&mut r, ' ');
        k += 1;
        assert(r@ =~= label@ + Seq::new((k - n) as nat, |i: int| ' '));
    }
    proof {
        if !(label@.len() < width) {
            assert(r@ =~= label@);
        }
    }
    r
}

/// The line that says when a run happened (see `stamp_line`).
fn stamp(sign: &str, label: &str, width: usize, time: &str, code: &str, code_label: &str) -> (r: String)
    requires
        sign@.len() == 1,
    ensures
        r@ == stamp_line(sign@[0], label@, width as int, time@, code@, code_label@),
{
    let mut s = owned(sign);
    push_str(&mut s, " ");
    let p = pad_to(label, width);
    push_str(&mut s, p.as_str());
    push_str(&mut s, ": ");
    push_str(&mut s, time);
    let ghost before = s@;
    if !code.is_empty() {
        push_str(&mut s, " [");
        push_str(&mut s, code_label);
        push_str(&mut s, ": ");
        push_str(&mut s, code);
        push_str(&mut s, "]");
    }
    proof {
        reveal_strlit(" ");
        assert(sign@ =~= seq![sign@[0]]);
        if code@.len() > 0 {
            assert(s@ =~= before + (" ["@ + code_label@ + ": "@ + code@ + "]"@));
        } else {
            assert(s@ =~= before + Seq::<char>::empty());
        }
        assert(s@ =~= stamp_line(sign@[0], label@, width as int, time@, code@, code_label@));
    }
    s
}

impl Differ {
    /// The report comparing the earlier run `earlier` with the later run
    /// `later`, their times as shown being `earlier_time` and `later_time`
    /// (see `report_ok`).
    #[verifier::rlimit(40)]
    pub fn diff_report(
        earlier: &CommandExecution,
        later: &CommandExecution,
        i18n: &I18n,
        linewise: bool,
        earlier_time: &str,
        later_time: &str,
    ) -> (r: String)
        ensures
            report_ok(*earlier, *later, *i18n, earlier_time@, later_time@, linewise, r@),
    {
        let nl = "\n";
        proof {
            reveal_strlit("\n");
        }
        let mut out = String::new();
        let mut args0: Vec<&str> = Vec::new();
        args0.push(later.record.command.as_str());
        let c = i18n.t_format("diff_command", args0.as_slice());
        let p0 = paint_bold_cyan(c.as_str());
        proof {
            assert(args0@.map_values(|a: &str| a@) =~= seq![later.record.command@]);
        }
        push_str(&mut out, p0.as_str());
        push_str(&mut out, nl);
        let el = i18n.t("diff_earlier_label");
        let ll = i18n.t("diff_later_label");
        let elen = el.as_str().as_bytes().len();
        let llen = ll.as_str().as_bytes().len();
        let width = if elen >= llen {
            elen
        } else {
            llen
        };
        let cl = i18n.t("short_code_label");
        let ecode = match &earlier.record.short_code {
            Some(s) => s.as_str(),
            None => "",
        };
        let lcode = match &later.record.short_code {
            Some(s) => s.as_str(),
            None => "",
        };
        proof {
            reveal_strlit("-");
            reveal_strlit("+");
            reveal_strlit("");
            assert(ecode@ == crate::differ::code_of(*earlier));
            assert(lcode@ == crate::differ::code_of(*later));
        }
        let eline = stamp("-", el.as_str(), width, earlier_time, ecode, cl.as_str());
        let lline = stamp("+", ll.as_str(), width, later_time, lcode, cl.as_str());
        let p1 = paint_red(eline.as_str());
        let p2 = paint_green(lline.as_str());
        push_str(&mut out, p1.as_str());
        push_str(&mut out, nl);
        push_str(&mut out, p2.as_str());
        push_str(&mut out, nl);
        let ghost head = out@;
        if earlier.record.exit_code != later.record.exit_code {
            let a = signed_decimal(earlier.record.exit_code as i64);
            let b = signed_decimal(later.record.exit_code as i64);
            let mut args: Vec<&str> = Vec::new();
            args.push(a.as_str());
            args.push(b.as_str());
            let m = i18n.t_format("diff_exit_code", args.as_slice());
            proof {
                assert(args@.map_values(|x: &str| x@) =~= seq![
                    signed_digits(earlier.record.exit_code as int),
                    signed_digits(later.record.exit_code as int),
                ]);
            }
            push_str(&mut out, m.as_str());
            push_str(&mut out, nl);
        }
        let ghost after_exit = out@;
        let a = decimal(earlier.record.duration_ms);
        let b = decimal(later.record.duration_ms);
        let mut args: Vec<&str> = Vec::new();
        args.push(a.as_str());
        args.push(b.as_str());
        let m = i18n.t_format("diff_execution_time", args.as_slice());
        proof {
            assert(args@.map_values(|x: &str| x@) =~= seq![
                dec_digits(earlier.record.duration_ms as nat),
                dec_digits(later.record.duration_ms as nat),
            ]);
        }
        push_str(&mut out, m.as_str());
        push_str(&mut out, nl);
        push_str(&mut out, nl);
        let ghost after_time = out@;
        let same_out = same_text(earlier.stdout.as_str(), later.stdout.as_str());
        let same_err = same_text(earlier.stderr.as_str(), later.stderr.as_str());
        let mut p3 = String::new();
        let mut b1 = String::new();
        if !same_out {
            let t = i18n.t("stdout_diff");
            p3 = paint_bold_yellow(t.as_str());
            b1 = if linewise {
                Self::diff_text_linewise(earlier.stdout.as_str(), later.stdout.as_str())
            } else {
                Self::diff_text(earlier.stdout.as_str(), later.stdout.as_str())
            };
            push_str(&mut out, p3.as_str());
            push_str(&mut out, nl);
            push_str(&mut out, b1.as_str());
            push_str(&mut out, nl);
        }
        let ghost after_out = out@;
        let mut p4 = String::new();
        let mut b2 = String::new();
        if !same_err {
            let t = i18n.t("stderr_diff");
            p4 = paint_bold_red(t.as_str());
            b2 = if linewise {
                Self::diff_text_linewise(earlier.stderr.as_str(), later.stderr.as_str())
            } else {
                Self::diff_text(earlier.stderr.as_str(), later.stderr.as_str())
            };
            push_str(&mut out, p4.as_str());
            push_str(&mut out, nl);
            push_str(&mut out, b2.as_str());
            push_str(&mut out, nl);
        }
        let ghost after_err = out@;
        let mut p5 = String::new();
        if same_out && same_err {
            let t = i18n.t("output_identical");
            p5 = paint_bold_green(t.as_str());
            push_str(&mut out, p5.as_str());
            push_str(&mut out, nl);
        }
        proof {
            let e = *earlier;
            let l = *later;
            let p = seq![p0@, p1@, p2@, p3@, p4@, p5@];
            let nls = seq!['\n'];
            assert(head =~= p[0] + nls + p[1] + nls + p[2] + nls);
            if e.record.exit_code != l.record.exit_code {
                assert(after_exit =~= head + (fill(
                    i18n.text_for("diff_exit_code"@),
                    seq![signed_digits(e.record.exit_code as int), signed_digits(l.record.exit_code as int)],
                ) + nls));
            } else {
                assert(after_exit =~= head + Seq::<char>::empty());
            }
            assert(after_time =~= after_exit + fill(
                i18n.text_for("diff_execution_time"@),
                seq![dec_digits(e.record.duration_ms as nat), dec_digits(l.record.duration_ms as nat)],
            ) + nls + nls);
            if !same_out {
                assert(after_out =~= after_time + (p[3] + nls + b1@ + nls));
            } else {
                assert(after_out =~= after_time + Seq::<char>::empty());
            }
            if !same_err {
                assert(after_err =~= after_out + (p[4] + nls + b2@ + nls));
            } else {
                assert(after_err =~= after_out + Seq::<char>::empty());
            }
            if same_out && same_err {
                assert(out@ =~= after_err + (p[5] + nls));
            } else {
                assert(out@ =~= after_err + Seq::<char>::empty());
            }
            assert(out@ =~= report_text(e, l, *i18n, p, b1@, b2@));
            let el_v = i18n.text_for("diff_earlier_label"@);
            let ll_v = i18n.text_for("diff_later_label"@);
            let w = larger(encode_utf8(el_v).len() as int, encode_utf8(ll_v).len() as int);
            let cl_v = i18n.text_for("short_code_label"@);
            assert(w == width);
            assert(shown(p[0], fill(i18n.text_for("diff_command"@), seq![l.record.command@]), bold_cyan()));
            assert(shown(p[1], stamp_line('-', el_v, w, earlier_time@, code_of(e), cl_v), red()));
            assert(shown(p[2], stamp_line('+', ll_v, w, later_time@, code_of(l), cl_v), green()));
            assert(e.stdout@ != l.stdout@ ==> shown(p[3], i18n.text_for("stdout_diff"@), bold_yellow())
                && body_ok(e.stdout@, l.stdout@, linewise, b1@));
            assert(e.stderr@ != l.stderr@ ==> shown(p[4], i18n.text_for("stderr_diff"@), bold_red())
                && body_ok(e.stderr@, l.stderr@, linewise, b2@));
            assert(e.stdout@ == l.stdout@ && e.stderr@ == l.stderr@ ==> shown(
                p[5],
                i18n.text_for("output_identical"@),
                bold_green(),
            ));
            assert(report_ok(e, l, *i18n, earlier_time@, later_time@, linewise, out@));
        }
        out
    }

    /// The report comparing the first two of `executions` (the earlier run
    /// first), their times shown in the local time zone (see
    /// `local_text_ok`); `None` when there are fewer than two.
    pub fn diff_executions(executions: &Vec<CommandExecution>, i18n: &I18n, linewise: bool) -> (r: Option<
        String,
    >)
        requires
            executions@.len() >= 2 ==> valid_ts(executions@[0].record.timestamp) && valid_ts(
                executions@[1].record.timestamp,
            ),
        ensures
            executions@.len() < 2 ==> r is None,
            executions@.len() >= 2 ==> r is Some && exists|t1: Seq<char>, t2: Seq<char>|
                local_text_ok(executions@[0].record.timestamp, t1) && local_text_ok(
                    executions@[1].record.timestamp,
                    t2,
                ) && #[trigger] report_ok(executions@[0], executions@[1], *i18n, t1, t2, linewise, r->0@),
    {
        if executions.len() < 2 {
            return None;
        }
        let earlier = &executions[0];
        let later = &executions[1];
        let t1 = local_string(earlier.record.timestamp);
        let t2 = local_string(later.record.timestamp);
        let report = Self::diff_report(earlier, later, i18n, linewise, t1.as_str(), t2.as_str());
        let ghost rv = report@;
        let r = Some(report);
        assert(r->0@ == rv);
        r
    }
}

} // verus!
