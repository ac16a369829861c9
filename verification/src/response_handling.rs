use vstd::prelude::*;
use vstd::string::{StrSliceExecFns, StringExecFns};
use crate::fmt::{
    decimal, decimal_text, rank_order, signed_decimal, signed_decimal_text, sort_ranked,
    stable_sort,
};
use crate::messages::lines::{join_lines, join_with, line_feed, texts_of};
use crate::messages::notifications::{ScriptsReloadProgressParams, ScriptsReloadProgressView};
use crate::messages::requests::{
    ConfigVarInfoView, ConfigVarsResult, ExecuteCommandResult, ExecuteCommandResultView,
    OpcodeBreakdownView, OpcodesResult, ScriptPackageInfoView, ScriptPackagesResult,
    ScriptsRootPathResult,
};
use crate::protocol::display::packet_debug_text;
use crate::protocol::encoding::DynSizedEncode;
use crate::protocol::packet::WitcherPacket;
use crate::protocol::packet_assembly::same_text;
use crate::utils::{
    diagnostic_line, lemma_sorted_rows, lemma_sorted_texts, reload_text, row_line,
    row_line_text, row_order, rows_of, rule_line, rule_line_text, text_order, texts,
    ScriptsReloadResponseView, VarlistEntry, VarlistEntryView,
};

verus! {

/// What a user reads for a raw packet: its listing.
pub fn print_raw_packet(packet: &WitcherPacket) -> (text: String)
    requires
        WitcherPacket::wire_size(packet@) <= usize::MAX,
    ensures
        text@ == packet_debug_text(packet@, WitcherPacket::wire_size(packet@)),
{
    packet.debug_text()
}

/// How a line of a summary stands out.
#[derive(Debug, Clone, Copy, PartialEq, Eq, Structural)]
pub enum LineColor {
    Plain,
    Red,
    Yellow,
}

/// A line of output.
#[derive(Debug, Clone, PartialEq, Eq)]
pub struct OutputLine {
    pub text: String,
    pub color: LineColor,
}

/// What a line of output holds.
pub struct OutputLineView {
    pub text: Seq<char>,
    pub color: LineColor,
}

impl View for OutputLine {
    type V = OutputLineView;

    open spec fn view(&self) -> OutputLineView {
        OutputLineView { text: self.text@, color: self.color }
    }
}

/// What a list of lines of output holds.
pub open spec fn output_of(lines: Seq<OutputLine>) -> Seq<OutputLineView> {
    lines.map_values(|line: OutputLine| line@)
}

/// The lines with the given texts, all of one colour.
pub open spec fn colored(lines: Seq<Seq<char>>, color: LineColor) -> Seq<OutputLineView> {
    lines.map_values(|text: Seq<char>| OutputLineView { text, color })
}

/// One plain line.
pub open spec fn plain(text: Seq<char>) -> Seq<OutputLineView> {
    seq![OutputLineView { text, color: LineColor::Plain }]
}

/// Keeps the warnings and errors of a compilation for the summary at its end.
pub struct ScriptsReloadPrinter {
    warnings: Vec<String>,
    errors: Vec<String>,
    verbose_printing: bool,
}

/// What a printer of compilation reports knows.
pub struct ScriptsReloadPrinterView {
    pub warnings: Seq<Seq<char>>,
    pub errors: Seq<Seq<char>>,
    pub verbose_printing: bool,
}

impl View for ScriptsReloadPrinter {
    type V = ScriptsReloadPrinterView;

    closed spec fn view(&self) -> ScriptsReloadPrinterView {
        ScriptsReloadPrinterView {
            warnings: texts(self.warnings@),
            errors: texts(self.errors@),
            verbose_printing: self.verbose_printing,
        }
    }
}

/// The head line of a summary.
pub open spec fn summary_head(errors: nat, warnings: nat) -> Seq<char> {
    "========== "@ + decimal(errors) + " Errors, "@ + decimal(warnings) + " Warnings =========="@
}

/// The summary of a compilation: how many errors and warnings there were, the errors
/// in red, and the warnings in yellow behind an empty line that parts them from the
/// errors.
pub open spec fn summary_of(state: ScriptsReloadPrinterView) -> Seq<OutputLineView> {
    plain(summary_head(state.errors.len(), state.warnings.len())) + colored(
        state.errors,
        LineColor::Red,
    ) + (if state.errors.len() > 0 {
        plain(Seq::empty())
    } else {
        Seq::empty()
    }) + colored(state.warnings, LineColor::Yellow)
}

/// The line that tells of a warning or an error.
pub open spec fn report_line(label: Seq<char>, path: Seq<char>, line: u32, message: Seq<char>) -> Seq<char> {
    diagnostic_line(label, path, decimal(line as nat), message)
}

/// What the printer knows after a report: it keeps the line of a warning or an error,
/// unless it prints verbosely.
pub open spec fn after_progress(
    state: ScriptsReloadPrinterView,
    params: ScriptsReloadProgressView,
) -> ScriptsReloadPrinterView {
    if state.verbose_printing {
        state
    } else {
        match params {
            ScriptsReloadProgressView::Warn {
                line,
                local_script_path,
                message,
            } => ScriptsReloadPrinterView {
                warnings: state.warnings.push(
                    report_line("[Warning] "@, local_script_path, line, message),
                ),
                ..state
            },
            ScriptsReloadProgressView::Error {
                line,
                local_script_path,
                message,
            } => ScriptsReloadPrinterView {
                errors: state.errors.push(
                    report_line("[Error] "@, local_script_path, line, message),
                ),
                ..state
            },
            _ => state,
        }
    }
}

/// The lines that the printer prints for a report: none where it prints verbosely;
/// else the report in words, and at the end of a compilation that had warnings or
/// errors an empty line and the summary.
pub open spec fn progress_lines(
    state: ScriptsReloadPrinterView,
    params: ScriptsReloadProgressView,
) -> Seq<OutputLineView> {
    if state.verbose_printing {
        Seq::empty()
    } else {
        match params {
            ScriptsReloadProgressView::Started => plain("Script compilation started..."@),
            ScriptsReloadProgressView::Log { message } => plain(message),
            ScriptsReloadProgressView::Warn { line, local_script_path, message } => plain(
                report_line("[Warning] "@, local_script_path, line, message),
            ),
            ScriptsReloadProgressView::Error { line, local_script_path, message } => plain(
                report_line("[Error] "@, local_script_path, line, message),
            ),
            ScriptsReloadProgressView::Finished { success } => plain(
                if success {
                    "Script compilation finished successfully."@
                } else {
                    "Script compilation finished with errors."@
                },
            ) + (if state.warnings.len() > 0 || state.errors.len() > 0 {
                plain(Seq::empty()) + summary_of(state)
            } else {
                Seq::empty()
            }),
        }
    }
}

/// What the printer did with a report.
pub struct ProgressOutput {
    /// The lines to print.
    pub lines: Vec<OutputLine>,
    /// Whether the report was the last of a compilation.
    pub finished: bool,
}

fn plain_line(text: String) -> (line: OutputLine)
    ensures
        line@ == (OutputLineView { text: text@, color: LineColor::Plain }),
{
    OutputLine { text, color: LineColor::Plain }
}

fn push_colored(lines: &mut Vec<OutputLine>, texts_in: &Vec<String>, color: LineColor)
    ensures
        output_of(final(lines)@) == output_of(old(lines)@) + colored(texts(texts_in@), color),
{
    let mut i: usize = 0;
    assert(texts(texts_in@).take(0) =~= Seq::<Seq<char>>::empty());
    assert(output_of(lines@) =~= output_of(old(lines)@) + colored(
        texts(texts_in@).take(0),
        color,
    ));
    while i < texts_in.len()
        invariant
            i <= texts_in.len(),
            output_of(lines@) == output_of(old(lines)@) + colored(
                texts(texts_in@).take(i as int),
                color,
            ),
        decreases texts_in.len() - i,
    {
        let ghost before = output_of(lines@);
        let line = OutputLine { text: texts_in[i].clone(), color };
        let ghost added = line@;
        lines.push(line);
        assert(output_of(lines@) =~= before.push(added));
        assert(colored(texts(texts_in@).take(i + 1), color) =~= colored(
            texts(texts_in@).take(i as int),
            color,
        ).push(added));
        assert(output_of(lines@) =~= output_of(old(lines)@) + colored(
            texts(texts_in@).take(i + 1),
            color,
        ));
        i += 1;
    }
    assert(texts(texts_in@).take(i as int) =~= texts(texts_in@));
}

fn report_text(label: &str, path: &str, line: u32, message: &str) -> (text: String)
    ensures
        text@ == report_line(label@, path@, line, message@),
{
    let mut text = label.to_owned();
    text.append(path);
    text.append("(");
    text.append(decimal_text(line as u64).as_str());
    text.append("): ");
    text.append(message);
    text
}

impl ScriptsReloadPrinter {
    pub fn new(verbose_printing: bool) -> (printer: Self)
        ensures
            printer@ == (ScriptsReloadPrinterView {
                warnings: Seq::empty(),
                errors: Seq::empty(),
                verbose_printing,
            }),
    {
        let printer = ScriptsReloadPrinter {
            warnings: Vec::new(),
            errors: Vec::new(),
            verbose_printing,
        };
        assert(printer@.warnings =~= Seq::<Seq<char>>::empty());
        assert(printer@.errors =~= Seq::<Seq<char>>::empty());
        printer
    }

    /// Takes in a report of the script compiler: gives the lines to print for it, and
    /// says whether the compilation has finished.
    pub fn print_progress(&mut self, params: ScriptsReloadProgressParams) -> (output:
        ProgressOutput)
        ensures
            output_of(output.lines@) == progress_lines(old(self)@, params@),
            output.finished == (params@ is Finished),
            final(self)@ == after_progress(old(self)@, params@),
    {
        let mut lines: Vec<OutputLine> = Vec::new();
        let mut finished = false;
        assert(output_of(lines@) =~= Seq::<OutputLineView>::empty());
        match params {
            ScriptsReloadProgressParams::Started => {
                if !self.verbose_printing {
                    lines.push(plain_line("Script compilation started...".to_owned()));
                    assert(output_of(lines@) =~= plain("Script compilation started..."@));
                }
            },
            ScriptsReloadProgressParams::Log { message } => {
                if !self.verbose_printing {
                    lines.push(plain_line(message));
                    assert(output_of(lines@) =~= plain(message@));
                }
            },
            ScriptsReloadProgressParams::Warn { line, local_script_path, message } => {
                if !self.verbose_printing {
                    let s = report_text(
                        "[Warning] ",
                        local_script_path.as_str(),
                        line,
                        message.as_str(),
                    );
                    lines.push(plain_line(s.clone()));
                    assert(output_of(lines@) =~= plain(s@));
                    self.warnings.push(s);
                    assert(self@.warnings =~= old(self)@.warnings.push(s@));
                }
            },
            ScriptsReloadProgressParams::Error { line, local_script_path, message } => {
                if !self.verbose_printing {
                    let s = report_text(
                        "[Error] ",
                        local_script_path.as_str(),
                        line,
                        message.as_str(),
                    );
                    lines.push(plain_line(s.clone()));
                    assert(output_of(lines@) =~= plain(s@));
                    self.errors.push(s);
                    assert(self@.errors =~= old(self)@.errors.push(s@));
                }
            },
            ScriptsReloadProgressParams::Finished { success } => {
                if !self.verbose_printing {
                    let text = if success {
                        "Script compilation finished successfully.".to_owned()
                    } else {
                        "Script compilation finished with errors.".to_owned()
                    };
                    lines.push(plain_line(text));
                    assert(output_of(lines@) =~= plain(text@));
                    if !(self.warnings.len() == 0) || !(self.errors.len() == 0) {
                        let ghost head = output_of(lines@);
                        lines.push(plain_line(String::new()));
                        assert(output_of(lines@) =~= head + plain(Seq::empty()));
                        let summary = self.print_summary();
                        let ghost before = output_of(lines@);
                        let mut i: usize = 0;
                        assert(output_of(summary@).take(0) =~= Seq::<OutputLineView>::empty());
                        assert(before + output_of(summary@).take(0) =~= before);
                        while i < summary.len()
                            invariant
                                i <= summary.len(),
                                output_of(lines@) == before + output_of(summary@).take(i as int),
                            decreases summary.len() - i,
                        {
                            let ghost so_far = output_of(lines@);
                            let line = OutputLine {
                                text: summary[i].text.clone(),
                                color: summary[i].color,
                            };
                            let ghost added = line@;
                            lines.push(line);
                            assert(output_of(lines@) =~= so_far.push(added));
                            assert(output_of(summary@).take(i + 1) =~= output_of(summary@).take(
                                i as int,
                            ).push(added));
                            i += 1;
                        }
                        assert(output_of(summary@).take(i as int) =~= output_of(summary@));
                        assert(output_of(lines@) =~= plain(text@) + (plain(Seq::empty())
                            + summary_of(self@)));
                    } else {
                        assert(output_of(lines@) + Seq::<OutputLineView>::empty() =~= output_of(
                            lines@,
                        ));
                    }
                }
                finished = true;
            },
        }
        ProgressOutput { lines, finished }
    }

    /// The summary of the compilation so far.
    pub fn print_summary(&self) -> (lines: Vec<OutputLine>)
        ensures
            output_of(lines@) == summary_of(self@),
    {
        let mut head = "========== ".to_owned();
        head.append(decimal_text(self.errors.len() as u64).as_str());
        head.append(" Errors, ");
        head.append(decimal_text(self.warnings.len() as u64).as_str());
        head.append(" Warnings ==========");
        let mut lines: Vec<OutputLine> = Vec::new();
        lines.push(plain_line(head));
        assert(output_of(lines@) =~= plain(summary_head(self@.errors.len(), self@.warnings.len())));
        push_colored(&mut lines, &self.errors, LineColor::Red);
        if self.errors.len() > 0 {
            let ghost before = output_of(lines@);
            lines.push(plain_line(String::new()));
            assert(output_of(lines@) =~= before + plain(Seq::empty()));
        } else {
            assert(output_of(lines@) + Seq::<OutputLineView>::empty() =~= output_of(lines@));
        }
        push_colored(&mut lines, &self.warnings, LineColor::Yellow);
        lines
    }
}

/// What a user reads for the result of a command.
pub open spec fn exec_result_text(v: ExecuteCommandResultView) -> Seq<char> {
    match v {
        ExecuteCommandResultView::Success { log_output: Some(lines) } => join_with(
            lines,
            line_feed(),
        ),
        ExecuteCommandResultView::Success {
            log_output: None,
        } => "Command executed successfully"@,
        ExecuteCommandResultView::Fail => "Command failed to execute"@,
    }
}

pub fn print_exec_result(result: ExecuteCommandResult) -> (text: String)
    ensures
        text@ == exec_result_text(result@),
{
    match result {
        ExecuteCommandResult::Success { log_output } => {
            if let Some(log_output) = log_output {
                join_lines(&log_output)
            } else {
                "Command executed successfully".to_owned()
            }
        },
        ExecuteCommandResult::Fail => "Command failed to execute".to_owned(),
    }
}

pub fn print_root_path_result(result: ScriptsRootPathResult) -> (text: String)
    ensures
        text@ == result@,
{
    result.abs_path
}

/// The names of the packages that are mods: all but the base game's `content0`.
pub open spec fn mod_names(packages: Seq<ScriptPackageInfoView>) -> Seq<Seq<char>>
    decreases packages.len(),
{
    if packages.len() == 0 {
        Seq::empty()
    } else if packages.last().package_name == "content0"@ {
        mod_names(packages.drop_last())
    } else {
        mod_names(packages.drop_last()).push(packages.last().package_name)
    }
}

/// What a user reads for a list of script packages: the number of mods, which is one
/// less than that of the packages, and the names of the mods in order.
pub open spec fn mod_list_lines(packages: Seq<ScriptPackageInfoView>) -> Seq<Seq<char>> {
    seq!["Mods installed: "@ + decimal((packages.len() - 1) as nat)] + stable_sort(
        mod_names(packages),
        text_order(),
    )
}

pub fn print_mod_list_result(result: ScriptPackagesResult) -> (lines: Vec<String>)
    requires
        result@.len() > 0,
    ensures
        texts(lines@) == mod_list_lines(result@),
{
    let packages = result.packages;
    let mut head = "Mods installed: ".to_owned();
    head.append(decimal_text((packages.len() - 1) as u64).as_str());
    let mut mods: Vec<String> = Vec::new();
    let mut i: usize = 0;
    assert(result@.take(0) =~= Seq::<ScriptPackageInfoView>::empty());
    assert(texts(mods@) =~= Seq::<Seq<char>>::empty());
    while i < packages.len()
        invariant
            i <= packages.len(),
            result@ == crate::messages::requests::packages_of(packages@),
            texts(mods@) == mod_names(result@.take(i as int)),
        decreases packages.len() - i,
    {
        assert(result@.take(i + 1).drop_last() =~= result@.take(i as int));
        assert(result@.take(i + 1).last() == packages@[i as int]@);
        if !same_text(packages[i].package_name.as_str(), "content0") {
            let ghost before = texts(mods@);
            mods.push(packages[i].package_name.clone());
            assert(texts(mods@) =~= before.push(packages@[i as int].package_name@));
        }
        i += 1;
    }
    assert(result@.take(i as int) =~= result@);
    proof {
        lemma_sorted_texts(mods@);
    }
    let sorted = sort_ranked(mods);
    let mut lines: Vec<String> = Vec::new();
    lines.push(head);
    let mut j: usize = 0;
    assert(texts(lines@) =~= seq![head@] + texts(sorted@).take(0));
    while j < sorted.len()
        invariant
            j <= sorted.len(),
            texts(lines@) == seq![head@] + texts(sorted@).take(j as int),
        decreases sorted.len() - j,
    {
        let ghost before = texts(lines@);
        lines.push(sorted[j].clone());
        assert(texts(lines@) =~= before.push(sorted@[j as int]@));
        assert(texts(sorted@).take(j + 1) =~= texts(sorted@).take(j as int).push(
            sorted@[j as int]@,
        ));
        j += 1;
    }
    assert(texts(sorted@).take(j as int) =~= texts(sorted@));
    lines
}

/// The lines for the opcodes of one line of a function.
pub open spec fn breakdown_lines(b: OpcodeBreakdownView) -> Seq<Seq<char>> {
    seq!["Line "@ + signed_decimal(b.line as int), "Opcodes: "@] + b.opcodes
}

/// What a user reads for the opcodes of a function.
pub open spec fn opcodes_lines(breakdowns: Seq<OpcodeBreakdownView>) -> Seq<Seq<char>>
    decreases breakdowns.len(),
{
    if breakdowns.len() == 0 {
        Seq::empty()
    } else {
        opcodes_lines(breakdowns.drop_last()) + breakdown_lines(breakdowns.last())
    }
}

pub fn print_opcodes(result: OpcodesResult) -> (lines: Vec<String>)
    ensures
        texts(lines@) == opcodes_lines(result@),
{
    let breakdowns = result.breakdowns;
    let mut lines: Vec<String> = Vec::new();
    let mut i: usize = 0;
    assert(result@.take(0) =~= Seq::<OpcodeBreakdownView>::empty());
    assert(texts(lines@) =~= Seq::<Seq<char>>::empty());
    while i < breakdowns.len()
        invariant
            i <= breakdowns.len(),
            result@ == crate::messages::requests::breakdowns_of(breakdowns@),
            texts(lines@) == opcodes_lines(result@.take(i as int)),
        decreases breakdowns.len() - i,
    {
        let ghost done = texts(lines@);
        let ghost item = breakdowns@[i as int]@;
        assert(result@.take(i + 1).drop_last() =~= result@.take(i as int));
        assert(result@.take(i + 1).last() == item);
        let mut head = "Line ".to_owned();
        head.append(signed_decimal_text(breakdowns[i].line as i64).as_str());
        lines.push(head);
        lines.push("Opcodes: ".to_owned());
        let ghost start = texts(lines@);
        assert(start =~= done + seq!["Line "@ + signed_decimal(item.line as int), "Opcodes: "@]);
        let opcodes = &breakdowns[i].opcodes;
        let mut j: usize = 0;
        assert(texts(opcodes@).take(0) =~= Seq::<Seq<char>>::empty());
        assert(start + texts(opcodes@).take(0) =~= start);
        while j < opcodes.len()
            invariant
                j <= opcodes.len(),
                texts(lines@) == start + texts(opcodes@).take(j as int),
            decreases opcodes.len() - j,
        {
            let ghost before = texts(lines@);
            lines.push(opcodes[j].clone());
            assert(texts(lines@) =~= before.push(opcodes@[j as int]@));
            assert(texts(opcodes@).take(j + 1) =~= texts(opcodes@).take(j as int).push(
                opcodes@[j as int]@,
            ));
            j += 1;
        }
        assert(texts(opcodes@).take(j as int) =~= texts(opcodes@));
        assert(texts(opcodes@) =~= item.opcodes);
        assert(texts(lines@) =~= done + breakdown_lines(item));
        i += 1;
    }
    assert(result@.take(i as int) =~= result@);
    lines
}

/// The rows of the table for a list of configuration variables.
pub open spec fn var_rows(vars: Seq<ConfigVarInfoView>) -> Seq<VarlistEntryView> {
    vars.map_values(
        |v: ConfigVarInfoView|
            VarlistEntryView { section: v.section, variable: v.name, value: v.value },
    )
}

/// The lines of the rows of the table.
pub open spec fn row_lines(rows: Seq<VarlistEntryView>) -> Seq<Seq<char>> {
    rows.map_values(|row: VarlistEntryView| row_line(row.section, row.variable, row.value))
}

/// What a user reads for a list of configuration variables: the head of the table and
/// a row for each variable, by section and within a section by name.
pub open spec fn var_list_lines(vars: Seq<ConfigVarInfoView>) -> Seq<Seq<char>> {
    seq![rule_line(), row_line("Section"@, "Variable"@, "Value"@), rule_line()] + row_lines(
        stable_sort(var_rows(vars), row_order()),
    )
}

pub fn print_var_list(result: ConfigVarsResult) -> (lines: Vec<String>)
    ensures
        texts(lines@) == var_list_lines(result@),
{
    let vars = result.vars;
    let mut entries: Vec<VarlistEntry> = Vec::new();
    let mut i: usize = 0;
    while i < vars.len()
        invariant
            i <= vars.len(),
            result@ == crate::messages::requests::vars_of(vars@),
            entries@.len() == i,
            forall|k: int| 0 <= k < i ==> (#[trigger] entries@[k])@ == var_rows(result@)[k],
        decreases vars.len() - i,
    {
        entries.push(
            VarlistEntry {
                section: vars[i].section.clone(),
                variable: vars[i].name.clone(),
                value: vars[i].value.clone(),
            },
        );
        i += 1;
    }
    assert(rows_of(entries@) =~= var_rows(result@));
    proof {
        lemma_sorted_rows(entries@);
    }
    let sorted = sort_ranked(entries);
    let mut lines: Vec<String> = Vec::new();
    lines.push(rule_line_text());
    lines.push(row_line_text("Section", "Variable", "Value"));
    lines.push(rule_line_text());
    let ghost head = texts(lines@);
    assert(head =~= seq![rule_line(), row_line("Section"@, "Variable"@, "Value"@), rule_line()]);
    let mut j: usize = 0;
    assert(head + row_lines(rows_of(sorted@)).take(0) =~= head);
    while j < sorted.len()
        invariant
            j <= sorted.len(),
            texts(lines@) == head + row_lines(rows_of(sorted@)).take(j as int),
        decreases sorted.len() - j,
    {
        let ghost before = texts(lines@);
        let line = row_line_text(
            sorted[j].section.as_str(),
            sorted[j].variable.as_str(),
            sorted[j].value.as_str(),
        );
        lines.push(line);
        assert(texts(lines@) =~= before.push(line@));
        assert(row_lines(rows_of(sorted@)).take(j + 1) =~= row_lines(rows_of(sorted@)).take(
            j as int,
        ).push(line@));
        j += 1;
    }
    assert(row_lines(rows_of(sorted@)).take(j as int) =~= row_lines(rows_of(sorted@)));
    lines
}

} // verus!
