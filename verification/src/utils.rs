use vstd::prelude::*;
use vstd::string::{StrSliceExecFns, StringExecFns};
use crate::fmt::{
    is_order, is_sorted, lemma_stable_sort_sorted, lemma_text_le_order, pad_text, padded, rank_order, repeat_text, repeated, sort_ranked, stable_sort, text_le,
    text_precedes, Ranked,
};
use crate::protocol::display::{packet_text, value_text};
use crate::protocol::packet::{values_of, WitcherPacket};
use crate::protocol::packet_assembly::same_text;
use crate::protocol::packet_data::{PacketValue, WitcherPacketData};

verus! {

/// The values of a response as a reader sees them.
pub fn default_formatter(response: &WitcherPacket) -> (text: String)
    ensures
        text@ == packet_text(response@),
{
    response.display_text()
}

/// What the script compiler reports in a packet.
pub enum ScriptsReloadResponseType {
    Started,
    Log(String),
    Warn { file: String, line: String, msg: String },
    Error { file: String, line: String, msg: String },
    Finished(bool),
}

/// What a report of the script compiler holds.
pub enum ScriptsReloadResponseView {
    Started,
    Log(Seq<char>),
    Warn { file: Seq<char>, line: Seq<char>, msg: Seq<char> },
    Error { file: Seq<char>, line: Seq<char>, msg: Seq<char> },
    Finished(bool),
}

impl View for ScriptsReloadResponseType {
    type V = ScriptsReloadResponseView;

    open spec fn view(&self) -> ScriptsReloadResponseView {
        match self {
            ScriptsReloadResponseType::Started => ScriptsReloadResponseView::Started,
            ScriptsReloadResponseType::Log(s) => ScriptsReloadResponseView::Log(s@),
            ScriptsReloadResponseType::Warn { file, line, msg } => ScriptsReloadResponseView::Warn {
                file: file@,
                line: line@,
                msg: msg@,
            },
            ScriptsReloadResponseType::Error {
                file,
                line,
                msg,
            } => ScriptsReloadResponseView::Error { file: file@, line: line@, msg: msg@ },
            ScriptsReloadResponseType::Finished(f) => ScriptsReloadResponseView::Finished(*f),
        }
    }
}

/// Whether a payload has a UTF-8 text with the given characters at a place.
pub open spec fn has_text_at(p: Seq<PacketValue>, at: int, text: Seq<char>) -> bool {
    0 <= at < p.len() && p[at] == PacketValue::StringUTF8(text)
}

/// The report of the script compiler that a payload holds: more than two values, the
/// compiler's name first and the kind of the report second; a warning or an error
/// needs five values.
pub open spec fn reload_response_of(p: Seq<PacketValue>) -> Option<ScriptsReloadResponseView> {
    if p.len() > 2 && has_text_at(p, 0, "ScriptCompiler"@) {
        if has_text_at(p, 1, "started"@) {
            Some(ScriptsReloadResponseView::Started)
        } else if has_text_at(p, 1, "log"@) {
            Some(ScriptsReloadResponseView::Log(value_text(p[2])))
        } else if has_text_at(p, 1, "warn"@) {
            if p.len() > 4 {
                Some(
                    ScriptsReloadResponseView::Warn {
                        file: value_text(p[3]),
                        line: value_text(p[2]),
                        msg: value_text(p[4]),
                    },
                )
            } else {
                None
            }
        } else if has_text_at(p, 1, "error"@) {
            if p.len() > 4 {
                Some(
                    ScriptsReloadResponseView::Error {
                        file: value_text(p[3]),
                        line: value_text(p[2]),
                        msg: value_text(p[4]),
                    },
                )
            } else {
                None
            }
        } else if has_text_at(p, 1, "finished"@) {
            Some(ScriptsReloadResponseView::Finished(p[2] == PacketValue::Int8(0)))
        } else {
            None
        }
    } else {
        None
    }
}

/// Whether the value at a place of a payload is a UTF-8 text with the given characters.
fn is_text_at(payload: &Vec<WitcherPacketData>, at: usize, text: &str) -> (same: bool)
    ensures
        same == has_text_at(values_of(payload@), at as int, text@),
{
    if at >= payload.len() {
        return false;
    }
    match &payload[at] {
        WitcherPacketData::StringUTF8(s) => same_text(s.inner().0.as_str(), text),
        _ => false,
    }
}

pub fn scripts_reload_response_type(response: &WitcherPacket) -> (r: Result<
    ScriptsReloadResponseType,
    String,
>)
    ensures
        match reload_response_of(response@) {
            Some(v) => r matches Ok(found) && found@ == v,
            None => r matches Err(message) && message@ == "Invalid packet format"@,
        },
{
    let payload = response.payload();
    let ghost p = values_of(payload@);
    if payload.len() > 2 && is_text_at(payload, 0, "ScriptCompiler") {
        if is_text_at(payload, 1, "started") {
            return Ok(ScriptsReloadResponseType::Started);
        } else if is_text_at(payload, 1, "log") {
            return Ok(ScriptsReloadResponseType::Log(payload[2].display_text()));
        } else if is_text_at(payload, 1, "warn") {
            if payload.len() > 4 {
                return Ok(
                    ScriptsReloadResponseType::Warn {
                        file: payload[3].display_text(),
                        line: payload[2].display_text(),
                        msg: payload[4].display_text(),
                    },
                );
            }
        } else if is_text_at(payload, 1, "error") {
            if payload.len() > 4 {
                return Ok(
                    ScriptsReloadResponseType::Error {
                        file: payload[3].display_text(),
                        line: payload[2].display_text(),
                        msg: payload[4].display_text(),
                    },
                );
            }
        } else if is_text_at(payload, 1, "finished") {
            let success = match &payload[2] {
                WitcherPacketData::Int8(code) => *code.inner() == 0,
                _ => false,
            };
            return Ok(ScriptsReloadResponseType::Finished(success));
        }
    }
    Err("Invalid packet format".to_owned())
}

/// The line that tells of a warning or an error of the script compiler.
pub open spec fn diagnostic_line(label: Seq<char>, file: Seq<char>, line: Seq<char>, msg: Seq<char>) -> Seq<char> {
    label + file + "("@ + line + "): "@ + msg
}

/// What a user reads for a report of the script compiler.
pub open spec fn reload_text(v: ScriptsReloadResponseView) -> Seq<char> {
    match v {
        ScriptsReloadResponseView::Started => "Script compilation started..."@,
        ScriptsReloadResponseView::Log(s) => s,
        ScriptsReloadResponseView::Warn { file, line, msg } => diagnostic_line(
            "[Warning] "@,
            file,
            line,
            msg,
        ),
        ScriptsReloadResponseView::Error { file, line, msg } => diagnostic_line(
            "[Error] "@,
            file,
            line,
            msg,
        ),
        ScriptsReloadResponseView::Finished(success) => if success {
            "Script compilation finished successfully."@
        } else {
            "Script compilation finished with errors."@
        },
    }
}

fn diagnostic_text(label: &str, file: &str, line: &str, msg: &str) -> (text: String)
    ensures
        text@ == diagnostic_line(label@, file@, line@, msg@),
{
    let mut text = label.to_owned();
    text.append(file);
    text.append("(");
    text.append(line);
    text.append("): ");
    text.append(msg);
    text
}

pub fn scripts_reload_formatter(response: &WitcherPacket) -> (text: String)
    ensures
        text@ == match reload_response_of(response@) {
            Some(v) => reload_text(v),
            None => packet_text(response@),
        },
{
    match scripts_reload_response_type(response) {
        Ok(response_type) => match response_type {
            ScriptsReloadResponseType::Started => "Script compilation started...".to_owned(),
            ScriptsReloadResponseType::Log(s) => s,
            ScriptsReloadResponseType::Warn { file, line, msg } => diagnostic_text(
                "[Warning] ",
                file.as_str(),
                line.as_str(),
                msg.as_str(),
            ),
            ScriptsReloadResponseType::Error { file, line, msg } => diagnostic_text(
                "[Error] ",
                file.as_str(),
                line.as_str(),
                msg.as_str(),
            ),
            ScriptsReloadResponseType::Finished(f) => {
                if f {
                    "Script compilation finished successfully.".to_owned()
                } else {
                    "Script compilation finished with errors.".to_owned()
                }
            },
        },
        Err(_) => default_formatter(response),
    }
}

pub fn scripts_root_path_formatter(response: &WitcherPacket) -> (text: String)
    ensures
        text@ == if response@.len() > 2 && has_text_at(response@, 0, "ScriptCompiler"@)
            && has_text_at(response@, 1, "RootPathConfirm"@) {
            value_text(response@[2])
        } else {
            packet_text(response@)
        },
{
    let payload = response.payload();
    if payload.len() > 2 && is_text_at(payload, 0, "ScriptCompiler") && is_text_at(
        payload,
        1,
        "RootPathConfirm",
    ) {
        return payload[2].display_text();
    }
    default_formatter(response)
}

pub fn scripts_execute_formatter(response: &WitcherPacket) -> (text: String)
    ensures
        text@ == if response@.len() > 2 {
            value_text(response@[2])
        } else {
            packet_text(response@)
        },
{
    let payload = response.payload();
    if payload.len() > 2 {
        return payload[2].display_text();
    }
    default_formatter(response)
}

/// The texts of every second value of a payload from a place on.
pub open spec fn every_second(p: Seq<PacketValue>, from: int) -> Seq<Seq<char>>
    decreases
            (if from < p.len() {
                p.len() - from
            } else {
                0
            }),
{
    if from < 0 || from >= p.len() {
        Seq::empty()
    } else {
        seq![value_text(p[from])] + every_second(p, from + 2)
    }
}

/// The order of texts by their UTF-8 bytes.
pub open spec fn text_order() -> spec_fn(Seq<char>, Seq<char>) -> bool {
    |a: Seq<char>, b: Seq<char>| text_le(a, b)
}

/// The order of texts is an order, so that a sorted list of texts has each text before
/// those behind it.
pub proof fn lemma_texts_sorted(items: Seq<Seq<char>>)
    ensures
        is_order(text_order()),
        is_sorted(stable_sort(items, text_order()), text_order()),
{
    let le = text_order();
    assert forall|a: Seq<char>, b: Seq<char>| #[trigger] le(a, b) || le(b, a) by {
        lemma_text_le_order(a, b, a);
    }
    assert forall|a: Seq<char>, b: Seq<char>, c: Seq<char>| #[trigger]
        le(a, b) && #[trigger] le(b, c) implies le(a, c) by {
        lemma_text_le_order(a, b, c);
    }
    lemma_stable_sort_sorted(items, le);
}

/// The lines of a list of texts, a line feed behind each.
pub open spec fn lines_text(lines: Seq<Seq<char>>) -> Seq<char>
    decreases lines.len(),
{
    if lines.len() == 0 {
        Seq::empty()
    } else {
        lines_text(lines.drop_last()) + lines.last() + "\n"@
    }
}

/// The line that counts the installed mods, where the payload says how many there are.
pub open spec fn mods_installed_line(count: PacketValue) -> Seq<char> {
    match count {
        PacketValue::Int32(installed) => "Mods installed: "@ + value_text(count) + "\n"@,
        _ => Seq::empty(),
    }
}

/// The texts of a list of strings.
pub open spec fn texts(lines: Seq<String>) -> Seq<Seq<char>> {
    lines.map_values(|line: String| line@)
}

/// Sorting strings sorts their texts.
pub proof fn lemma_sorted_texts(lines: Seq<String>)
    ensures
        texts(stable_sort(lines, rank_order::<String>())) == stable_sort(
            texts(lines),
            text_order(),
        ),
    decreases lines.len(),
{
    if lines.len() > 0 {
        lemma_sorted_texts(lines.drop_last());
        lemma_insert_texts(
            stable_sort(lines.drop_last(), rank_order::<String>()),
            lines.last(),
        );
        assert(texts(lines).drop_last() =~= texts(lines.drop_last()));
    } else {
        assert(texts(lines) =~= Seq::<Seq<char>>::empty());
        assert(texts(Seq::<String>::empty()) =~= Seq::<Seq<char>>::empty());
    }
}

/// Inserting a string into sorted strings inserts its text into their texts.
pub proof fn lemma_insert_texts(sorted: Seq<String>, item: String)
    ensures
        texts(crate::fmt::insert_sorted(sorted, item, rank_order::<String>()))
            == crate::fmt::insert_sorted(texts(sorted), item@, text_order()),
    decreases sorted.len(),
{
    let le = rank_order::<String>();
    if sorted.len() == 0 {
        assert(texts(sorted) =~= Seq::<Seq<char>>::empty());
        assert(texts(seq![item]) =~= seq![item@]);
    } else if le(sorted.last(), item) {
        assert(texts(sorted.push(item)) =~= texts(sorted).push(item@));
        assert(texts(sorted).last() == sorted.last()@);
    } else {
        lemma_insert_texts(sorted.drop_last(), item);
        assert(texts(sorted).last() == sorted.last()@);
        assert(texts(sorted).drop_last() =~= texts(sorted.drop_last()));
        let inner = crate::fmt::insert_sorted(sorted.drop_last(), item, le);
        assert(texts(inner.push(sorted.last())) =~= texts(inner).push(sorted.last()@));
    }
}

fn lines_of(lines: &Vec<String>) -> (text: String)
    ensures
        text@ == lines_text(texts(lines@)),
{
    let mut text = String::new();
    let mut i: usize = 0;
    assert(texts(lines@).take(0) =~= Seq::<Seq<char>>::empty());
    while i < lines.len()
        invariant
            i <= lines.len(),
            text@ == lines_text(texts(lines@).take(i as int)),
        decreases lines.len() - i,
    {
        assert(texts(lines@).take(i + 1).drop_last() =~= texts(lines@).take(i as int));
        assert(texts(lines@).take(i + 1).last() == lines@[i as int]@);
        text.append(lines[i].as_str());
        text.append("\n");
        i += 1;
    }
    assert(texts(lines@).take(i as int) =~= texts(lines@));
    text
}

pub fn mod_list_formatter(response: &WitcherPacket) -> (text: String)
    ensures
        text@ == if response@.len() >= 3 && has_text_at(response@, 0, "scripts"@) && has_text_at(
            response@,
            1,
            "pkgSyncListing"@,
        ) {
            mods_installed_line(response@[2]) + lines_text(
                stable_sort(every_second(response@, 3), text_order()),
            )
        } else {
            packet_text(response@)
        },
{
    let payload = response.payload();
    let ghost p = values_of(payload@);
    if payload.len() >= 3 && is_text_at(payload, 0, "scripts") && is_text_at(
        payload,
        1,
        "pkgSyncListing",
    ) {
        let mut result = String::new();
        match &payload[2] {
            WitcherPacketData::Int32(_) => {
                result.append("Mods installed: ");
                result.append(payload[2].display_text().as_str());
                result.append("\n");
                assert(result@ =~= mods_installed_line(p[2]));
            },
            _ => {},
        }
        let mut mods: Vec<String> = Vec::new();
        let mut i: usize = 3;
        assert(texts(mods@) =~= Seq::<Seq<char>>::empty());
        assert(Seq::<Seq<char>>::empty() + every_second(p, 3) =~= every_second(p, 3));
        while i < payload.len()
            invariant
                3 <= i,
                p == values_of(payload@),
                every_second(p, 3) == texts(mods@) + every_second(p, i as int),
            decreases payload.len() - i,
        {
            let ghost before = texts(mods@);
            mods.push(payload[i].display_text());
            assert(texts(mods@) =~= before.push(value_text(p[i as int])));
            assert(before + (seq![value_text(p[i as int])] + every_second(p, i + 2)) =~= before.push(
                value_text(p[i as int]),
            ) + every_second(p, i + 2));
            if payload.len() - i < 2 {
                assert(every_second(p, i + 2) =~= Seq::<Seq<char>>::empty());
                assert(texts(mods@) + Seq::<Seq<char>>::empty() =~= texts(mods@));
                i = payload.len();
                assert(every_second(p, i as int) =~= Seq::<Seq<char>>::empty());
            } else {
                i += 2;
            }
        }
        assert(texts(mods@) + Seq::<Seq<char>>::empty() =~= texts(mods@));
        proof {
            lemma_sorted_texts(mods@);
        }
        let sorted = sort_ranked(mods);
        result.append(lines_of(&sorted).as_str());
        return result;
    }
    default_formatter(response)
}

pub fn opcode_formatter(response: &WitcherPacket) -> (text: String)
    ensures
        text@ == if response@.len() == 9 && has_text_at(response@, 0, "ScriptDebugger"@)
            && has_text_at(response@, 1, "OpcodeBreakdownResponse"@) {
            value_text(response@[6]) + value_text(response@[8])
        } else {
            packet_text(response@)
        },
{
    let payload = response.payload();
    if payload.len() == 9 && is_text_at(payload, 0, "ScriptDebugger") && is_text_at(
        payload,
        1,
        "OpcodeBreakdownResponse",
    ) {
        // only the parts of the response whose meaning is known are shown
        let mut text = payload[6].display_text();
        text.append(payload[8].display_text().as_str());
        return text;
    }
    default_formatter(response)
}

/// One row of the table of configuration variables.
pub struct VarlistEntry {
    pub section: String,
    pub variable: String,
    pub value: String,
}

/// What a row of the table of configuration variables holds.
pub struct VarlistEntryView {
    pub section: Seq<char>,
    pub variable: Seq<char>,
    pub value: Seq<char>,
}

impl View for VarlistEntry {
    type V = VarlistEntryView;

    open spec fn view(&self) -> VarlistEntryView {
        VarlistEntryView { section: self.section@, variable: self.variable@, value: self.value@ }
    }
}

/// Whether a row stands before another in the table, or ranks with it: rows go by
/// section, and within a section by variable.
pub open spec fn row_le(a: VarlistEntryView, b: VarlistEntryView) -> bool {
    if a.section == b.section {
        text_le(a.variable, b.variable)
    } else {
        text_le(a.section, b.section)
    }
}

/// The order of the rows of the table.
pub open spec fn row_order() -> spec_fn(VarlistEntryView, VarlistEntryView) -> bool {
    |a: VarlistEntryView, b: VarlistEntryView| row_le(a, b)
}

/// The order of rows is an order, so that a sorted table has each row before those
/// below it.
pub proof fn lemma_rows_sorted(rows: Seq<VarlistEntryView>)
    ensures
        is_order(row_order()),
        is_sorted(stable_sort(rows, row_order()), row_order()),
{
    let le = row_order();
    assert forall|a: VarlistEntryView, b: VarlistEntryView| #[trigger] le(a, b) || le(b, a) by {
        lemma_text_le_order(a.section, b.section, a.section);
        lemma_text_le_order(a.variable, b.variable, a.variable);
    }
    assert forall|a: VarlistEntryView, b: VarlistEntryView, c: VarlistEntryView| #[trigger]
        le(a, b) && #[trigger] le(b, c) implies le(a, c) by {
        lemma_text_le_order(a.section, b.section, c.section);
        lemma_text_le_order(a.variable, b.variable, c.variable);
        lemma_text_le_order(b.section, c.section, a.section);
        lemma_text_le_order(c.section, a.section, b.section);
    }
    lemma_stable_sort_sorted(rows, le);
}

impl Ranked for VarlistEntry {
    open spec fn ranks_before(&self, other: &Self) -> bool {
        row_le(self@, other@)
    }

    fn comes_before(&self, other: &Self) -> (le: bool) {
        if same_text(self.section.as_str(), other.section.as_str()) {
            text_precedes(self.variable.as_str(), other.variable.as_str())
        } else {
            text_precedes(self.section.as_str(), other.section.as_str())
        }
    }
}

/// What a list of rows holds.
pub open spec fn rows_of(rows: Seq<VarlistEntry>) -> Seq<VarlistEntryView> {
    rows.map_values(|row: VarlistEntry| row@)
}

/// Inserting a row into sorted rows inserts what it holds into what they hold.
pub proof fn lemma_insert_rows(sorted: Seq<VarlistEntry>, item: VarlistEntry)
    ensures
        rows_of(crate::fmt::insert_sorted(sorted, item, rank_order::<VarlistEntry>()))
            == crate::fmt::insert_sorted(rows_of(sorted), item@, row_order()),
    decreases sorted.len(),
{
    let le = rank_order::<VarlistEntry>();
    if sorted.len() == 0 {
        assert(rows_of(sorted) =~= Seq::<VarlistEntryView>::empty());
        assert(rows_of(seq![item]) =~= seq![item@]);
    } else if le(sorted.last(), item) {
        assert(rows_of(sorted.push(item)) =~= rows_of(sorted).push(item@));
        assert(rows_of(sorted).last() == sorted.last()@);
    } else {
        lemma_insert_rows(sorted.drop_last(), item);
        assert(rows_of(sorted).last() == sorted.last()@);
        assert(rows_of(sorted).drop_last() =~= rows_of(sorted.drop_last()));
        let inner = crate::fmt::insert_sorted(sorted.drop_last(), item, le);
        assert(rows_of(inner.push(sorted.last())) =~= rows_of(inner).push(sorted.last()@));
    }
}

/// Sorting rows sorts what they hold.
pub proof fn lemma_sorted_rows(rows: Seq<VarlistEntry>)
    ensures
        rows_of(stable_sort(rows, rank_order::<VarlistEntry>())) == stable_sort(
            rows_of(rows),
            row_order(),
        ),
    decreases rows.len(),
{
    if rows.len() > 0 {
        lemma_sorted_rows(rows.drop_last());
        lemma_insert_rows(stable_sort(rows.drop_last(), rank_order::<VarlistEntry>()), rows.last());
        assert(rows_of(rows).drop_last() =~= rows_of(rows.drop_last()));
    } else {
        assert(rows_of(rows) =~= Seq::<VarlistEntryView>::empty());
        assert(rows_of(Seq::<VarlistEntry>::empty()) =~= Seq::<VarlistEntryView>::empty());
    }
}

/// A row of the table: section and variable in columns of 40 and 45 characters, and
/// the value behind them.
pub open spec fn row_line(section: Seq<char>, variable: Seq<char>, value: Seq<char>) -> Seq<char> {
    padded(section, 40) + "| "@ + padded(variable, 45) + "| "@ + value
}

/// A row of the table with the line feed that ends it.
pub open spec fn row_text(section: Seq<char>, variable: Seq<char>, value: Seq<char>) -> Seq<char> {
    row_line(section, variable, value) + "\n"@
}

/// The rows of the table one below the other.
pub open spec fn rows_text(rows: Seq<VarlistEntryView>) -> Seq<char>
    decreases rows.len(),
{
    if rows.len() == 0 {
        Seq::empty()
    } else {
        rows_text(rows.drop_last()) + row_text(
            rows.last().section,
            rows.last().variable,
            rows.last().value,
        )
    }
}

/// The line that rules off the head of the table.
pub open spec fn rule_line() -> Seq<char> {
    repeated('-', 40) + "+-"@ + repeated('-', 45) + "+-"@ + repeated('-', 40)
}

/// The line that rules off the head of the table, with the line feed that ends it.
pub open spec fn table_rule() -> Seq<char> {
    rule_line() + "\n"@
}

/// The head of the table.
pub open spec fn table_head() -> Seq<char> {
    table_rule() + row_text("Section"@, "Variable"@, "Value"@) + table_rule()
}

/// The rows that a payload holds from a place on: a row for every five values, made
/// of the first three of them, as long as these are there.
pub open spec fn rows_from(p: Seq<PacketValue>, from: int) -> Seq<VarlistEntryView>
    decreases
            (if from < p.len() {
                p.len() - from
            } else {
                0
            }),
{
    if from < 0 || from + 2 >= p.len() {
        Seq::empty()
    } else {
        seq![
            VarlistEntryView {
                section: value_text(p[from + 1]),
                variable: value_text(p[from]),
                value: value_text(p[from + 2]),
            },
        ] + rows_from(p, from + 5)
    }
}

/// A row of the table.
pub fn row_line_text(section: &str, variable: &str, value: &str) -> (text: String)
    ensures
        text@ == row_line(section@, variable@, value@),
{
    let mut text = pad_text(section, 40);
    text.append("| ");
    text.append(pad_text(variable, 45).as_str());
    text.append("| ");
    text.append(value);
    text
}

fn row_of(section: &str, variable: &str, value: &str) -> (text: String)
    ensures
        text@ == row_text(section@, variable@, value@),
{
    let mut text = row_line_text(section, variable, value);
    text.append("\n");
    text
}

/// The line that rules off the head of the table.
pub fn rule_line_text() -> (text: String)
    ensures
        text@ == rule_line(),
{
    proof {
        reveal_strlit("-");
    }
    let mut text = repeat_text("-", 40);
    text.append("+-");
    text.append(repeat_text("-", 45).as_str());
    text.append("+-");
    text.append(repeat_text("-", 40).as_str());
    text
}

fn table_rule_text() -> (text: String)
    ensures
        text@ == table_rule(),
{
    let mut text = rule_line_text();
    text.append("\n");
    text
}

/// The head of the table of configuration variables.
pub fn table_head_text() -> (text: String)
    ensures
        text@ == table_head(),
{
    let mut text = table_rule_text();
    text.append(row_of("Section", "Variable", "Value").as_str());
    text.append(table_rule_text().as_str());
    text
}

/// The rows of the table one below the other.
pub fn rows_text_of(rows: &Vec<VarlistEntry>) -> (text: String)
    ensures
        text@ == rows_text(rows_of(rows@)),
{
    let mut text = String::new();
    let mut i: usize = 0;
    assert(rows_of(rows@).take(0) =~= Seq::<VarlistEntryView>::empty());
    while i < rows.len()
        invariant
            i <= rows.len(),
            text@ == rows_text(rows_of(rows@).take(i as int)),
        decreases rows.len() - i,
    {
        assert(rows_of(rows@).take(i + 1).drop_last() =~= rows_of(rows@).take(i as int));
        assert(rows_of(rows@).take(i + 1).last() == rows@[i as int]@);
        text.append(
            row_of(rows[i].section.as_str(), rows[i].variable.as_str(), rows[i].value.as_str()).as_str(),
        );
        i += 1;
    }
    assert(rows_of(rows@).take(i as int) =~= rows_of(rows@));
    text
}

pub fn var_list_formatter(response: &WitcherPacket) -> (text: String)
    ensures
        text@ == if response@.len() > 4 && has_text_at(response@, 1, "vars"@) {
            table_head() + rows_text(stable_sort(rows_from(response@, 4), row_order()))
        } else {
            packet_text(response@)
        },
{
    let payload = response.payload();
    let ghost p = values_of(payload@);
    if payload.len() > 4 && is_text_at(payload, 1, "vars") {
        let mut result = table_head_text();
        let mut entries: Vec<VarlistEntry> = Vec::new();
        let mut i: usize = 4;
        assert(rows_of(entries@) =~= Seq::<VarlistEntryView>::empty());
        assert(Seq::<VarlistEntryView>::empty() + rows_from(p, 4) =~= rows_from(p, 4));
        while payload.len() - i > 2
            invariant
                4 <= i <= payload.len(),
                p == values_of(payload@),
                rows_from(p, 4) == rows_of(entries@) + rows_from(p, i as int),
            decreases payload.len() - i,
        {
            let ghost before = rows_of(entries@);
            let entry = VarlistEntry {
                section: payload[i + 1].display_text(),
                variable: payload[i].display_text(),
                value: payload[i + 2].display_text(),
            };
            let ghost row = entry@;
            entries.push(entry);
            assert(rows_of(entries@) =~= before.push(row));
            assert(before + (seq![row] + rows_from(p, i + 5)) =~= before.push(row) + rows_from(
                p,
                i + 5,
            ));
            if payload.len() - i < 5 {
                assert(rows_from(p, i + 5) =~= Seq::<VarlistEntryView>::empty());
                i = payload.len();
                assert(rows_from(p, i as int) =~= Seq::<VarlistEntryView>::empty());
            } else {
                i += 5;
            }
        }
        assert(rows_from(p, i as int) =~= Seq::<VarlistEntryView>::empty());
        assert(rows_of(entries@) + Seq::<VarlistEntryView>::empty() =~= rows_of(entries@));
        proof {
            lemma_sorted_rows(entries@);
        }
        let sorted = sort_ranked(entries);
        result.append(rows_text_of(&sorted).as_str());
        return result;
    }
    default_formatter(response)
}

} // verus!
