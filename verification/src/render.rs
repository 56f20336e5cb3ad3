//! Rendering the analysis report as text or as JSON.

use vstd::prelude::*;

use crate::error::DcError;
use crate::model::{kind_label, AnalysisReport, DeadCodeFinding, SkippedFile};
use crate::text::{append_str, push_char};

verus! {

/// The output format of the report.
#[derive(Debug, Clone, Copy, PartialEq, Eq, Structural)]
pub enum ReportFormat {
    /// A text report for people.
    Text,
    /// A JSON report for CI tools.
    Json,
}

/// The character of a decimal digit.
pub open spec fn digit_char(digit: nat) -> char {
    if digit == 0 {
        '0'
    } else if digit == 1 {
        '1'
    } else if digit == 2 {
        '2'
    } else if digit == 3 {
        '3'
    } else if digit == 4 {
        '4'
    } else if digit == 5 {
        '5'
    } else if digit == 6 {
        '6'
    } else if digit == 7 {
        '7'
    } else if digit == 8 {
        '8'
    } else {
        '9'
    }
}

/// The decimal notation of a number, without leading zeros.
pub open spec fn decimal(n: nat) -> Seq<char>
    decreases n,
{
    if n < 10 {
        seq![digit_char(n)]
    } else {
        decimal(n / 10).push(digit_char(n % 10))
    }
}

/// Appends the decimal notation of `n`.
pub fn append_decimal(target: &mut String, n: usize)
    ensures
        final(target)@ == old(target)@ + decimal(n as nat),
    decreases n,
{
    if n >= 10 {
        append_decimal(target, n / 10);
    }
    let digit = n % 10;
    let c = if digit == 0 {
        '0'
    } else if digit == 1 {
        '1'
    } else if digit == 2 {
        '2'
    } else if digit == 3 {
        '3'
    } else if digit == 4 {
        '4'
    } else if digit == 5 {
        '5'
    } else if digit == 6 {
        '6'
    } else if digit == 7 {
        '7'
    } else if digit == 8 {
        '8'
    } else {
        '9'
    };
    push_char(target, c);
    assert(decimal(n as nat) =~= if n < 10 {
        Seq::<char>::empty().push(digit_char(n as nat))
    } else {
        decimal((n / 10) as nat).push(digit_char((n % 10) as nat))
    });
}

/// The line that reports one finding.
pub open spec fn finding_line(finding: DeadCodeFinding) -> Seq<char> {
    finding.file_path@ + ":"@ + decimal(finding.line_number as nat) + ": "@ + kind_label(finding.entity_kind) + " `"@
        + finding.qualified_name@ + "` не используется\n"@
}

/// The lines that report the findings, in order.
pub open spec fn finding_lines(findings: Seq<DeadCodeFinding>) -> Seq<char>
    decreases findings.len(),
{
    if findings.len() == 0 {
        Seq::empty()
    } else {
        finding_lines(findings.drop_last()) + finding_line(findings.last())
    }
}

/// The statistics that a verbose text report starts with.
pub open spec fn statistics_lines(report: AnalysisReport) -> Seq<char> {
    "Проанализировано файлов: "@ + decimal(report.analyzed_file_count as nat) + "\n"@ + "Извлечено сущностей: "@
        + decimal(report.extracted_entity_count as nat) + "\n"@ + "Пропущено файлов: "@ + decimal(
        report.skipped_files@.len(),
    ) + "\n"@ + "\n"@
}

/// The text report.
pub open spec fn text_report(report: AnalysisReport, verbose: bool) -> Seq<char> {
    let head = if verbose {
        statistics_lines(report)
    } else {
        Seq::empty()
    };
    if report.findings@.len() == 0 {
        head + "Мертвый код не найден.\n"@
    } else {
        head + "Найдено объектов мертвого кода: "@ + decimal(report.findings@.len()) + "\n"@ + "\n"@ + finding_lines(
            report.findings@,
        )
    }
}

/// A verbose text report is the statistics followed by the plain text report.
pub proof fn lemma_verbose_report_starts_with_statistics(report: AnalysisReport)
    ensures
        text_report(report, true) == statistics_lines(report) + text_report(report, false),
{
    let tail = if report.findings@.len() == 0 {
        "Мертвый код не найден.\n"@
    } else {
        "Найдено объектов мертвого кода: "@ + decimal(report.findings@.len()) + "\n"@ + "\n"@ + finding_lines(report.findings@)
    };
    assert(text_report(report, false) =~= tail);
    assert(text_report(report, true) =~= statistics_lines(report) + tail);
}

/// The header of a text report with findings gives their number: the plain
/// report starts with `Найдено объектов мертвого кода: ` and the decimal count
/// of the findings on a line of its own, and a verbose report has the same
/// line right after its statistics.
pub proof fn lemma_text_report_header_counts_findings(report: AnalysisReport)
    requires
        report.findings@.len() > 0,
    ensures
        ({
            let header = "Найдено объектов мертвого кода: "@ + decimal(report.findings@.len()) + "\n"@;
            &&& text_report(report, false).len() >= header.len()
            &&& text_report(report, false).subrange(0, header.len() as int) == header
            &&& text_report(report, true).subrange(
                statistics_lines(report).len() as int,
                (statistics_lines(report).len() + header.len()) as int,
            ) == header
        }),
{
    let header = "Найдено объектов мертвого кода: "@ + decimal(report.findings@.len()) + "\n"@;
    let plain = text_report(report, false);
    assert(plain =~= header + ("\n"@ + finding_lines(report.findings@)));
    assert(plain.subrange(0, header.len() as int) =~= header);
    lemma_verbose_report_starts_with_statistics(report);
    let stats = statistics_lines(report);
    assert(text_report(report, true).subrange(stats.len() as int, (stats.len() + header.len()) as int) =~= plain.subrange(
        0,
        header.len() as int,
    ));
}

/// Renders the report in the chosen format. A JSON report is the serialized
/// report (`serialized_json`, which the caller makes from the same report)
/// followed by a line break; a text report is built here.
pub fn render_report(
    analysis_report: &AnalysisReport,
    report_format: ReportFormat,
    verbose: bool,
    serialized_json: &str,
) -> (output: String)
    ensures
        output@ == match report_format {
            ReportFormat::Text => text_report(*analysis_report, verbose),
            ReportFormat::Json => serialized_json@.push('\n'),
        },
{
    match report_format {
        ReportFormat::Text => render_text(analysis_report, verbose),
        ReportFormat::Json => {
            let mut output = String::from_str(serialized_json);
            push_char(&mut output, '\n');
            output
        },
    }
}

/// Renders the text report.
pub fn render_text(analysis_report: &AnalysisReport, verbose: bool) -> (output: String)
    ensures
        output@ == text_report(*analysis_report, verbose),
{
    let mut output = String::new();
    if verbose {
        append_str(&mut output, "Проанализировано файлов: ");
        append_decimal(&mut output, analysis_report.analyzed_file_count);
        append_str(&mut output, "\n");
        append_str(&mut output, "Извлечено сущностей: ");
        append_decimal(&mut output, analysis_report.extracted_entity_count);
        append_str(&mut output, "\n");
        append_str(&mut output, "Пропущено файлов: ");
        append_decimal(&mut output, analysis_report.skipped_files.len());
        append_str(&mut output, "\n");
        append_str(&mut output, "\n");
    }
    let ghost head = output@;
    assert(head =~= if verbose {
        statistics_lines(*analysis_report)
    } else {
        Seq::<char>::empty()
    });
    let findings = &analysis_report.findings;
    if findings.len() == 0 {
        append_str(&mut output, "Мертвый код не найден.\n");
        return output;
    }
    append_str(&mut output, "Найдено объектов мертвого кода: ");
    append_decimal(&mut output, findings.len());
    append_str(&mut output, "\n");
    append_str(&mut output, "\n");
    let ghost start = output@;
    let mut i: usize = 0;
    assert(findings@.subrange(0, 0) =~= Seq::<DeadCodeFinding>::empty());
    assert(start + finding_lines(findings@.subrange(0, 0)) =~= start);
    while i < findings.len()
        invariant
            i <= findings@.len(),
            output@ == start + finding_lines(findings@.subrange(0, i as int)),
        decreases findings@.len() - i,
    {
        let finding = &findings[i];
        append_str(&mut output, finding.file_path.as_str());
        append_str(&mut output, ":");
        append_decimal(&mut output, finding.line_number);
        append_str(&mut output, ": ");
        append_str(&mut output, finding.entity_kind.label());
        append_str(&mut output, " `");
        append_str(&mut output, finding.qualified_name.as_str());
        append_str(&mut output, "` не используется\n");
        assert(findings@.subrange(0, i + 1).drop_last() =~= findings@.subrange(0, i as int));
        assert(output@ =~= start + finding_lines(findings@.subrange(0, i + 1)));
        i = i + 1;
    }
    assert(findings@.subrange(0, findings@.len() as int) =~= findings@);
    output
}


/// The exit code when no dead code is found.
pub const EXIT_CODE_CLEAN: u8 = 0;

/// The exit code when dead code is found.
pub const EXIT_CODE_FINDINGS: u8 = 1;

/// The exit code on a configuration or start-up error.
pub const EXIT_CODE_ERROR: u8 = 2;

/// The exit code of the tool: an error gives 2, a report with findings
/// (after filtering by kind) gives 1, and a clean report gives 0.
pub fn exit_code(outcome: &Result<AnalysisReport, DcError>) -> (code: u8)
    ensures
        code == match outcome {
            Ok(report) => if report.findings@.len() == 0 {
                EXIT_CODE_CLEAN
            } else {
                EXIT_CODE_FINDINGS
            },
            Err(_) => EXIT_CODE_ERROR,
        },
{
    match outcome {
        Ok(report) => if report.findings.len() == 0 {
            EXIT_CODE_CLEAN
        } else {
            EXIT_CODE_FINDINGS
        },
        Err(_) => EXIT_CODE_ERROR,
    }
}

/// The warning about a skipped file.
pub open spec fn skipped_file_warning_text(skipped_file: SkippedFile) -> Seq<char> {
    "dc: пропущен файл "@ + skipped_file.file_path@ + ": "@ + skipped_file.reason@
}

/// Describes a skipped file for the warning on standard error.
pub fn skipped_file_warning(skipped_file: &SkippedFile) -> (warning: String)
    ensures
        warning@ == skipped_file_warning_text(*skipped_file),
{
    let mut warning = String::new();
    append_str(&mut warning, "dc: пропущен файл ");
    append_str(&mut warning, skipped_file.file_path.as_str());
    append_str(&mut warning, ": ");
    append_str(&mut warning, skipped_file.reason.as_str());
    warning
}

} // verus!
