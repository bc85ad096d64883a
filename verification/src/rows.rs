//! What renders as a table row.

use vstd::prelude::*;

use crate::sacct::Run;
use crate::squeue::Job;
use crate::style;
use crate::style::{Span, Tone};

verus! {

/// How wide a column is.
#[derive(Clone, Copy, Debug, PartialEq, Eq, Structural)]
pub enum Width {
    /// Exactly this wide.
    Length(u16),
    /// At least this wide.
    Min(u16),
}

/// A column's title and width.
pub struct Column {
    pub title: &'static str,
    pub width: Width,
}

impl View for Column {
    type V = (Seq<char>, Width);

    open spec fn view(&self) -> (Seq<char>, Width) {
        (self.title@, self.width)
    }
}

/// The columns as a specification speaks of them.
pub open spec fn headings(columns: Seq<Column>) -> Seq<(Seq<char>, Width)> {
    columns.map_values(|column: Column| column@)
}

/// Something that renders as a table row.
pub trait Rows: Sized {
    /// Column titles and widths, in render order.
    spec fn layout() -> Seq<(Seq<char>, Width)>;

    /// The texts and colours of the cells, in column order.
    spec fn drawn(&self) -> Seq<(Seq<char>, Tone)>;

    /// The job this row is.
    spec fn job(&self) -> String;

    /// Where it writes its output.
    spec fn file(&self) -> String;

    /// Column titles and widths, in render order.
    fn columns() -> (r: Vec<Column>)
        ensures
            headings(r@) == Self::layout(),
    ;

    /// The cells, in column order. Cells rather than a finished row, because
    /// the pane drops the ones scrolled off the left before it builds one.
    fn cells(&self) -> (r: Vec<Span>)
        ensures
            style::spans(r@) == self.drawn(),
    ;

    /// The job this row is, for a preview window to name.
    fn id(&self) -> (r: &String)
        ensures
            *r == self.job(),
    ;

    /// Where it writes its output, or `-` for a job that writes no file.
    fn log(&self) -> (r: &String)
        ensures
            *r == self.file(),
    ;
}

impl Rows for Job {
    open spec fn layout() -> Seq<(Seq<char>, Width)> {
        seq![
            ("JOBID"@, Width::Length(8)),
            ("PARTITION"@, Width::Length(9)),
            ("NAME"@, Width::Min(14)),
            ("USER"@, Width::Length(9)),
            ("STATE"@, Width::Length(9)),
            ("CPU"@, Width::Length(4)),
            ("GPU"@, Width::Length(3)),
            ("MEM"@, Width::Length(6)),
            ("TIME"@, Width::Length(10)),
            ("NODES"@, Width::Length(5)),
            ("NODELIST(REASON)"@, Width::Min(18)),
            ("LOG"@, Width::Min(24)),
        ]
    }

    open spec fn drawn(&self) -> Seq<(Seq<char>, Tone)> {
        seq![
            (self.id@, Tone::Plain),
            (self.partition@, Tone::Plain),
            (self.name@, Tone::Plain),
            (self.user@, Tone::Plain),
            (self.state@, style::state_tone(self.state@)),
            (self.cpus@, Tone::Plain),
            (self.gpus@, Tone::Plain),
            (self.mem@, Tone::Plain),
            (self.time@, Tone::Plain),
            (self.nodes@, Tone::Plain),
            (self.reason@, Tone::Plain),
            (self.log@, Tone::Plain),
        ]
    }

    open spec fn job(&self) -> String {
        self.id
    }

    open spec fn file(&self) -> String {
        self.log
    }

    fn columns() -> (r: Vec<Column>) {
        let r: Vec<Column> = vec![
            Column { title: "JOBID", width: Width::Length(8) },
            Column { title: "PARTITION", width: Width::Length(9) },
            Column { title: "NAME", width: Width::Min(14) },
            Column { title: "USER", width: Width::Length(9) },
            Column { title: "STATE", width: Width::Length(9) },
            Column { title: "CPU", width: Width::Length(4) },
            Column { title: "GPU", width: Width::Length(3) },
            Column { title: "MEM", width: Width::Length(6) },
            Column { title: "TIME", width: Width::Length(10) },
            Column { title: "NODES", width: Width::Length(5) },
            Column { title: "NODELIST(REASON)", width: Width::Min(18) },
            Column { title: "LOG", width: Width::Min(24) },
        ];
        assert(headings(r@) =~= Self::layout());
        r
    }

    fn cells(&self) -> (r: Vec<Span>) {
        let r: Vec<Span> = vec![
            style::span(self.id.as_str(), Tone::Plain),
            style::span(self.partition.as_str(), Tone::Plain),
            style::span(self.name.as_str(), Tone::Plain),
            style::span(self.user.as_str(), Tone::Plain),
            style::span(self.state.as_str(), style::state_style(self.state.as_str())),
            style::span(self.cpus.as_str(), Tone::Plain),
            style::span(self.gpus.as_str(), Tone::Plain),
            style::span(self.mem.as_str(), Tone::Plain),
            style::span(self.time.as_str(), Tone::Plain),
            style::span(self.nodes.as_str(), Tone::Plain),
            style::span(self.reason.as_str(), Tone::Plain),
            style::span(self.log.as_str(), Tone::Plain),
        ];
        assert(style::spans(r@) =~= self.drawn());
        r
    }

    fn id(&self) -> (r: &String) {
        &self.id
    }

    fn log(&self) -> (r: &String) {
        &self.log
    }
}

impl Rows for Run {
    open spec fn layout() -> Seq<(Seq<char>, Width)> {
        seq![
            ("JOBID"@, Width::Length(9)),
            ("PARTITION"@, Width::Length(9)),
            ("NAME"@, Width::Min(14)),
            ("USER"@, Width::Length(9)),
            ("STATE"@, Width::Length(13)),
            ("CPU"@, Width::Length(4)),
            ("GPU"@, Width::Length(3)),
            ("MEM"@, Width::Length(6)),
            ("ELAPSED"@, Width::Length(9)),
            ("END"@, Width::Length(11)),
            ("EXIT"@, Width::Length(6)),
            ("LOG"@, Width::Min(24)),
        ]
    }

    open spec fn drawn(&self) -> Seq<(Seq<char>, Tone)> {
        seq![
            (self.id@, Tone::Plain),
            (self.partition@, Tone::Plain),
            (self.name@, Tone::Plain),
            (self.user@, Tone::Plain),
            (self.state@, style::state_tone(self.state@)),
            (self.cpus@, Tone::Plain),
            (self.gpus@, Tone::Plain),
            (self.mem@, Tone::Plain),
            (self.elapsed@, Tone::Plain),
            (self.end@, Tone::Plain),
            (self.exit@, Tone::Plain),
            (self.log@, Tone::Plain),
        ]
    }

    open spec fn job(&self) -> String {
        self.id
    }

    open spec fn file(&self) -> String {
        self.log
    }

    fn columns() -> (r: Vec<Column>) {
        let r: Vec<Column> = vec![
            Column { title: "JOBID", width: Width::Length(9) },
            Column { title: "PARTITION", width: Width::Length(9) },
            Column { title: "NAME", width: Width::Min(14) },
            Column { title: "USER", width: Width::Length(9) },
            Column { title: "STATE", width: Width::Length(13) },
            Column { title: "CPU", width: Width::Length(4) },
            Column { title: "GPU", width: Width::Length(3) },
            Column { title: "MEM", width: Width::Length(6) },
            Column { title: "ELAPSED", width: Width::Length(9) },
            Column { title: "END", width: Width::Length(11) },
            Column { title: "EXIT", width: Width::Length(6) },
            Column { title: "LOG", width: Width::Min(24) },
        ];
        assert(headings(r@) =~= Self::layout());
        r
    }

    fn cells(&self) -> (r: Vec<Span>) {
        let r: Vec<Span> = vec![
            style::span(self.id.as_str(), Tone::Plain),
            style::span(self.partition.as_str(), Tone::Plain),
            style::span(self.name.as_str(), Tone::Plain),
            style::span(self.user.as_str(), Tone::Plain),
            style::span(self.state.as_str(), style::state_style(self.state.as_str())),
            style::span(self.cpus.as_str(), Tone::Plain),
            style::span(self.gpus.as_str(), Tone::Plain),
            style::span(self.mem.as_str(), Tone::Plain),
            style::span(self.elapsed.as_str(), Tone::Plain),
            style::span(self.end.as_str(), Tone::Plain),
            style::span(self.exit.as_str(), Tone::Plain),
            style::span(self.log.as_str(), Tone::Plain),
        ];
        assert(style::spans(r@) =~= self.drawn());
        r
    }

    fn id(&self) -> (r: &String) {
        &self.id
    }

    fn log(&self) -> (r: &String) {
        &self.log
    }
}

/// Whether the `i`th column has this title and width, and this text under it.
pub open spec fn cell_under(
    layout: Seq<(Seq<char>, Width)>,
    drawn: Seq<(Seq<char>, Tone)>,
    i: int,
    title: Seq<char>,
    width: Width,
    text: Seq<char>,
) -> bool {
    layout[i] == (title, width) && drawn[i].0 == text
}

/// What the queue shows of a job stands under the title that says what it is,
/// and only the state has a colour.
pub proof fn lemma_a_queued_job_stands_under_its_titles(job: Job)
    ensures
        ({
            &&& Job::layout().len() == 12
            &&& job.drawn().len() == 12
            &&& cell_under(
                Job::layout(),
                job.drawn(),
                0,
                "JOBID"@,
                Width::Length(8),
                job.id@,
            )
            &&& cell_under(
                Job::layout(),
                job.drawn(),
                1,
                "PARTITION"@,
                Width::Length(9),
                job.partition@,
            )
            &&& cell_under(
                Job::layout(),
                job.drawn(),
                2,
                "NAME"@,
                Width::Min(14),
                job.name@,
            )
            &&& cell_under(
                Job::layout(),
                job.drawn(),
                3,
                "USER"@,
                Width::Length(9),
                job.user@,
            )
            &&& cell_under(
                Job::layout(),
                job.drawn(),
                4,
                "STATE"@,
                Width::Length(9),
                job.state@,
            )
            &&& cell_under(
                Job::layout(),
                job.drawn(),
                5,
                "CPU"@,
                Width::Length(4),
                job.cpus@,
            )
            &&& cell_under(
                Job::layout(),
                job.drawn(),
                6,
                "GPU"@,
                Width::Length(3),
                job.gpus@,
            )
            &&& cell_under(
                Job::layout(),
                job.drawn(),
                7,
                "MEM"@,
                Width::Length(6),
                job.mem@,
            )
            &&& cell_under(
                Job::layout(),
                job.drawn(),
                8,
                "TIME"@,
                Width::Length(10),
                job.time@,
            )
            &&& cell_under(
                Job::layout(),
                job.drawn(),
                9,
                "NODES"@,
                Width::Length(5),
                job.nodes@,
            )
            &&& cell_under(
                Job::layout(),
                job.drawn(),
                10,
                "NODELIST(REASON)"@,
                Width::Min(18),
                job.reason@,
            )
            &&& cell_under(
                Job::layout(),
                job.drawn(),
                11,
                "LOG"@,
                Width::Min(24),
                job.log@,
            )
            &&& forall|i: int|
                0 <= i < 12 && i != 4 ==> (#[trigger] job.drawn()[i]).1 == Tone::Plain
            &&& job.drawn()[4].1 == style::state_tone(job.state@)
            &&& job.job() == job.id
            &&& job.file() == job.log
        }),
{
}

/// What the recent jobs show of one stands under the title that says what it
/// is, and only the state has a colour.
pub proof fn lemma_a_recent_job_stands_under_its_titles(run: Run)
    ensures
        ({
            &&& Run::layout().len() == 12
            &&& run.drawn().len() == 12
            &&& cell_under(
                Run::layout(),
                run.drawn(),
                0,
                "JOBID"@,
                Width::Length(9),
                run.id@,
            )
            &&& cell_under(
                Run::layout(),
                run.drawn(),
                1,
                "PARTITION"@,
                Width::Length(9),
                run.partition@,
            )
            &&& cell_under(
                Run::layout(),
                run.drawn(),
                2,
                "NAME"@,
                Width::Min(14),
                run.name@,
            )
            &&& cell_under(
                Run::layout(),
                run.drawn(),
                3,
                "USER"@,
                Width::Length(9),
                run.user@,
            )
            &&& cell_under(
                Run::layout(),
                run.drawn(),
                4,
                "STATE"@,
                Width::Length(13),
                run.state@,
            )
            &&& cell_under(
                Run::layout(),
                run.drawn(),
                5,
                "CPU"@,
                Width::Length(4),
                run.cpus@,
            )
            &&& cell_under(
                Run::layout(),
                run.drawn(),
                6,
                "GPU"@,
                Width::Length(3),
                run.gpus@,
            )
            &&& cell_under(
                Run::layout(),
                run.drawn(),
                7,
                "MEM"@,
                Width::Length(6),
                run.mem@,
            )
            &&& cell_under(
                Run::layout(),
                run.drawn(),
                8,
                "ELAPSED"@,
                Width::Length(9),
                run.elapsed@,
            )
            &&& cell_under(
                Run::layout(),
                run.drawn(),
                9,
                "END"@,
                Width::Length(11),
                run.end@,
            )
            &&& cell_under(
                Run::layout(),
                run.drawn(),
                10,
                "EXIT"@,
                Width::Length(6),
                run.exit@,
            )
            &&& cell_under(
                Run::layout(),
                run.drawn(),
                11,
                "LOG"@,
                Width::Min(24),
                run.log@,
            )
            &&& forall|i: int|
                0 <= i < 12 && i != 4 ==> (#[trigger] run.drawn()[i]).1 == Tone::Plain
            &&& run.drawn()[4].1 == style::state_tone(run.state@)
            &&& run.job() == run.id
            &&& run.file() == run.log
        }),
{
}

/// A heading is its title and its width, and the headings are the columns in
/// their order.
pub proof fn lemma_headings_are_the_columns(columns: Seq<Column>, i: int)
    requires
        0 <= i < columns.len(),
    ensures
        headings(columns).len() == columns.len(),
        headings(columns)[i] == (columns[i].title@, columns[i].width),
{
}

} // verus!
