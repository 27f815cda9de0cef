//! A Lox interpreter: a scanner, a recursive-descent parser and a
//! tree-walking interpreter, each verified against a specification of what it
//! computes.
use vstd::prelude::*;

pub mod text;
pub mod token;
pub mod scanner;
pub mod syntax_trees;
pub mod parser;
pub mod parser_spec;
pub mod precedence;
pub mod number;
pub mod runtime_error;
pub mod environment;
pub mod display;
pub mod semantics;
pub mod interpreter;
pub mod ast_printer;

use crate::display::{decimal, write_decimal};
use crate::environment::env_empty;
use crate::interpreter::{out_view, total, unit_result, Interpreter};
use crate::number::{deterministic, num_fn, NumOp, NumOpV, NumOut, NumOutV};
use crate::parser::{notes_view, parsing_message, ParseNote, Parser, ParsingError};
use crate::parser_spec::NoteV;
use crate::display::expr_text;
use crate::text::str_chars;
use vstd::utf8::is_ascii_chars;
use crate::parser_spec::spec_parse;
use crate::runtime_error::{ErrV, RuntimeError};
use crate::scanner::{
    errors_view, lemma_ascii_scan_uncut, scan_chars, scan_source, scanning_message, tokens_view, ScanReport, ScanV,
    ScannedToken, ScannedTokenV, ScanningError, MAX_SOURCE,
};
use crate::syntax_trees::{stmts_view, Statement, StmtV};
use crate::semantics::{run_statements, St};
use crate::display::runtime_message;

verus! {

/// What can go wrong running a Lox program.
#[derive(Debug)]
pub enum LoxError {
    /// The program was started with other arguments than it takes.
    Usage,
    /// The source holds other than ASCII text.
    NotAscii,
    ScanningError(ScanningError),
    ParsingError(ParsingError),
    RuntimeError(RuntimeError),
}

/// What an error of running a program is.
pub enum LoxErrV {
    Usage,
    NotAscii,
    Scanning(ScanningError),
    Parsing(ParsingError),
    Runtime(ErrV),
}

impl View for LoxError {
    type V = LoxErrV;

    open spec fn view(&self) -> LoxErrV {
        match self {
            LoxError::Usage => LoxErrV::Usage,
            LoxError::NotAscii => LoxErrV::NotAscii,
            LoxError::ScanningError(e) => LoxErrV::Scanning(*e),
            LoxError::ParsingError(e) => LoxErrV::Parsing(*e),
            LoxError::RuntimeError(e) => LoxErrV::Runtime(e@),
        }
    }
}

/// The text that an error is displayed with.
pub open spec fn lox_message(e: LoxErrV) -> Seq<char> {
    match e {
        LoxErrV::Usage => "Usage: jlox [script] | jlox"@,
        LoxErrV::NotAscii => "Sorry, I only except Ascii (my bad, its a skill issue)"@,
        LoxErrV::Scanning(e) => "Scanning Error: "@ + scanning_message(e),
        LoxErrV::Parsing(e) => "Parsing Error: "@ + parsing_message(e),
        LoxErrV::Runtime(e) => "Runtime Error: "@ + runtime_message(e),
    }
}

impl LoxError {
    /// The error itself, for the given line; the line that reports it is
    /// `report`'s.
    pub fn error(self, line: u32) -> (r: Self)
        ensures
            r == self,
    {
        self
    }

    /// The error of a program started with other arguments than it takes
    /// (its message is the usage line).
    pub fn usage() -> (r: Self)
        ensures
            r@ == LoxErrV::Usage,
    {
        LoxError::Usage
    }

    /// Appends the text that the error is displayed with.
    pub fn write_message(&self, out: &mut String)
        ensures
            final(out)@ == old(out)@ + lox_message(self@),
    {
        match self {
            LoxError::Usage => out.append("Usage: jlox [script] | jlox"),
            LoxError::NotAscii => out.append("Sorry, I only except Ascii (my bad, its a skill issue)"),
            LoxError::ScanningError(e) => {
                out.append("Scanning Error: ");
                out.append(e.message());
            },
            LoxError::ParsingError(e) => {
                out.append("Parsing Error: ");
                e.write_message(out);
            },
            LoxError::RuntimeError(e) => {
                out.append("Runtime Error: ");
                e.write_message(out);
            },
        }
        proof {
            assert(final(out)@ =~= old(out)@ + lox_message(self@));
        }
    }

    /// The text that the error is displayed with.
    pub fn message(&self) -> (r: String)
        ensures
            r@ == lox_message(self@),
    {
        let mut r = String::new();
        self.write_message(&mut r);
        proof {
            assert(r@ =~= lox_message(self@));
        }
        r
    }

    /// The line that reports the error at a line of the source, at a place.
    pub fn report(&self, line: u32, whre: &str) -> (r: String)
        ensures
            r@ == "[line "@ + decimal(line as nat) + "] at "@ + whre@ + ": "@ + lox_message(self@),
    {
        let mut r = String::new();
        r.append("[line ");
        write_decimal(line as u64, &mut r);
        r.append("] at ");
        r.append(whre);
        r.append(": ");
        self.write_message(&mut r);
        proof {
            assert(r@ =~= "[line "@ + decimal(line as nat) + "] at "@ + whre@ + ": "@ + lox_message(self@));
        }
        r
    }
}

/// Whether a source is one that the interpreter takes: one whose every
/// character is ASCII.
pub fn validate(code: &str) -> (r: bool)
    ensures
        r == is_ascii_chars(code@),
{
    code.is_ascii()
}

/// What scanning a source gives.
#[verifier::opaque]
pub open spec fn scanned(code: Seq<char>) -> ScanV {
    scan_source(code)
}

/// What parsing tokens gives, and the notes made meanwhile.
#[verifier::opaque]
pub open spec fn parsed(tokens: Seq<ScannedTokenV>) -> (Result<Seq<StmtV>, ParsingError>, Seq<NoteV>) {
    spec_parse(tokens)
}

/// What running statements in an empty environment does: the lines they
/// print, and how they end.
#[verifier::opaque]
pub open spec fn ran(nf: spec_fn(NumOpV) -> NumOutV, fuel: nat, statements: Seq<StmtV>) -> (
    Seq<Seq<char>>,
    Result<(), ErrV>,
) {
    let (st, r) = run_statements(nf, fuel, statements, St { env: env_empty(), out: Seq::empty() });
    (st.out, r)
}

/// The line that reports a scanning error at a line of the source.
pub open spec fn scan_report(e: (ScanningError, nat)) -> Seq<char> {
    "[line "@ + decimal(e.1) + "] at "@ + ""@ + ": "@ + scanning_message(e.0)
}

/// The lines that report scanning errors.
pub open spec fn scan_reports(errors: Seq<(ScanningError, nat)>) -> Seq<Seq<char>> {
    errors.map_values(|e: (ScanningError, nat)| scan_report(e))
}

/// The line that a note of the parser is shown as.
pub open spec fn note_text(nf: spec_fn(NumOpV) -> NumOutV, n: NoteV) -> Seq<char> {
    match n {
        NoteV::Error(e, Some(line)) => "Error on line "@ + decimal(line) + ": "@ + parsing_message(e),
        NoteV::Error(e, None) => "Error at end of file: "@ + parsing_message(e),
        NoteV::TooManyParams => "Can't have more than 255 parameters."@,
        NoteV::IfCondition(c) => "if condition: "@ + expr_text(nf, c),
    }
}

/// Whether a note is shown on the error stream (else on the output).
pub open spec fn on_error_stream(n: NoteV) -> bool {
    n is IfCondition
}

/// The lines of the notes shown on the output, in order.
pub open spec fn notes_out(nf: spec_fn(NumOpV) -> NumOutV, notes: Seq<NoteV>) -> Seq<Seq<char>>
    decreases notes.len(),
{
    if notes.len() == 0 {
        Seq::empty()
    } else if on_error_stream(notes.last()) {
        notes_out(nf, notes.drop_last())
    } else {
        notes_out(nf, notes.drop_last()).push(note_text(nf, notes.last()))
    }
}

/// The lines of the notes shown on the error stream, in order.
pub open spec fn notes_err(nf: spec_fn(NumOpV) -> NumOutV, notes: Seq<NoteV>) -> Seq<Seq<char>>
    decreases notes.len(),
{
    if notes.len() == 0 {
        Seq::empty()
    } else if on_error_stream(notes.last()) {
        notes_err(nf, notes.drop_last()).push(note_text(nf, notes.last()))
    } else {
        notes_err(nf, notes.drop_last())
    }
}

/// What running a source does: the lines it prints on the output, the lines
/// it prints on the error stream, and how it ends. A source with a character
/// that is not ASCII is refused before anything else. Each scanning error is
/// reported on the error stream, and a source with any ends there; the
/// parser's notes are shown next; a program that parses runs in an empty
/// environment until a statement fails.
pub open spec fn run_source(nf: spec_fn(NumOpV) -> NumOutV, fuel: nat, source: Seq<char>) -> (
    Seq<Seq<char>>,
    Seq<Seq<char>>,
    Result<(), LoxErrV>,
) {
    let sc = scanned(source);
    let reports = scan_reports(sc.errors);
    if !is_ascii_chars(source) {
        (Seq::empty(), Seq::empty(), Err(LoxErrV::NotAscii))
    } else if sc.errors.len() > 0 {
        (Seq::empty(), reports, Err(LoxErrV::Scanning(sc.errors.last().0)))
    } else {
        let (p, notes) = parsed(sc.tokens);
        let out = notes_out(nf, notes);
        let err = reports + notes_err(nf, notes);
        match p {
            Err(e) => (out, err, Err(LoxErrV::Parsing(e))),
            Ok(statements) => {
                let (printed, r) = ran(nf, fuel, statements);
                (
                    out + printed,
                    err,
                    match r {
                        Ok(()) => Ok(()),
                        Err(x) => Err(LoxErrV::Runtime(x)),
                    },
                )
            },
        }
    }
}

/// What the outcome of running a source is.
pub open spec fn lox_result(r: Result<(), LoxError>) -> Result<(), LoxErrV> {
    match r {
        Ok(()) => Ok(()),
        Err(e) => Err(e@),
    }
}

fn scan_stage(code: &str) -> (r: ScanReport)
    requires
        code@.len() < MAX_SOURCE,
    ensures
        r@ == scanned(code@),
{
    proof {
        reveal(scanned);
    }
    let chars = str_chars(code);
    scan_chars(&chars)
}

fn parse_stage(tokens: Vec<ScannedToken>) -> (r: (Result<Vec<Statement>, ParsingError>, Vec<ParseNote>))
    requires
        !parsed(tokens_view(tokens@)).1.contains(NoteV::Error(ParsingError::TooManyArgs, None)),
    ensures
        parsed(tokens_view(tokens@)).1 == notes_view(r.1@),
        match r.0 {
            Ok(s) => parsed(tokens_view(tokens@)).0 == Ok::<Seq<StmtV>, ParsingError>(stmts_view(s@)),
            Err(e) => parsed(tokens_view(tokens@)).0 == Err::<Seq<StmtV>, ParsingError>(e),
        },
{
    proof {
        reveal(parsed);
    }
    let mut parser = Parser::new(tokens);
    let result = parser.parse();
    (result, parser.into_notes())
}

fn interpret_stage<F: Fn(NumOp) -> NumOut>(statements: &Vec<Statement>, fuel: u64, num: &F) -> (r: (
    Vec<String>,
    Result<(), RuntimeError>,
))
    requires
        total(*num),
    ensures
        deterministic(*num) ==> (out_view(r.0@), unit_result(r.1)) == ran(
            num_fn(*num),
            fuel as nat,
            stmts_view(statements@),
        ),
{
    proof {
        reveal(ran);
    }
    let mut interpreter = Interpreter::new();
    proof {
        assert(out_view(interpreter.output@) =~= Seq::empty());
    }
    let result = interpreter.interpret(statements, fuel, num);
    let Interpreter { environment: _, output } = interpreter;
    (output, result)
}

/// Appends lines to `out`.
fn append_lines(out: &mut Vec<String>, lines: &Vec<String>)
    ensures
        out_view(final(out)@) == out_view(old(out)@) + out_view(lines@),
{
    let mut i: usize = 0;
    while i < lines.len()
        invariant
            i <= lines@.len(),
            out_view(out@) == out_view(old(out)@) + out_view(lines@.take(i as int)),
        decreases lines.len() - i,
    {
        let line = lines[i].clone();
        let ghost prev = out@;
        out.push(line);
        proof {
            assert(out_view(lines@.take(i + 1)) =~= out_view(lines@.take(i as int)).push(
                lines@[i as int]@,
            ));
            assert(out_view(out@) =~= out_view(prev).push(line@));
        }
        i = i + 1;
    }
    proof {
        assert(lines@.take(lines@.len() as int) =~= lines@);
    }
}

/// Appends the lines that report scanning errors to `err`.
fn report_scanning_errors(errors: &Vec<(ScanningError, u32)>, err: &mut Vec<String>)
    ensures
        out_view(final(err)@) == out_view(old(err)@) + scan_reports(errors_view(errors@)),
{
    let mut i: usize = 0;
    while i < errors.len()
        invariant
            i <= errors@.len(),
            out_view(err@) == out_view(old(err)@) + scan_reports(errors_view(errors@.take(i as int))),
        decreases errors.len() - i,
    {
        let (e, line) = errors[i];
        let text = e.report(line, "");
        let ghost prev = err@;
        err.push(text);
        proof {
            assert(scan_reports(errors_view(errors@.take(i + 1))) =~= scan_reports(
                errors_view(errors@.take(i as int)),
            ).push(scan_report((e, line as nat))));
            assert(out_view(err@) =~= out_view(prev).push(text@));
        }
        i = i + 1;
    }
    proof {
        assert(errors@.take(errors@.len() as int) =~= errors@);
    }
}

impl ParseNote {
    /// The line that the note is shown as.
    pub fn text<F: Fn(NumOp) -> NumOut>(&self, num: &F) -> (r: String)
        requires
            total(*num),
        ensures
            deterministic(*num) ==> r@ == note_text(num_fn(*num), self@),
    {
        let mut r = String::new();
        match self {
            ParseNote::Error(e, Some(line)) => {
                r.append("Error on line ");
                write_decimal(*line as u64, &mut r);
                r.append(": ");
                e.write_message(&mut r);
            },
            ParseNote::Error(e, None) => {
                r.append("Error at end of file: ");
                e.write_message(&mut r);
            },
            ParseNote::TooManyParams => r.append("Can't have more than 255 parameters."),
            ParseNote::IfCondition(c) => {
                r.append("if condition: ");
                c.write_text(num, &mut r);
            },
        }
        proof {
            if deterministic(*num) {
                assert(r@ =~= note_text(num_fn(*num), self@));
            }
        }
        r
    }
}

/// Appends the lines of the notes, those shown on the output to `out` and
/// those shown on the error stream to `err`.
fn show_notes<F: Fn(NumOp) -> NumOut>(
    notes: &Vec<ParseNote>,
    num: &F,
    out: &mut Vec<String>,
    err: &mut Vec<String>,
)
    requires
        total(*num),
    ensures
        deterministic(*num) ==> out_view(final(out)@) == out_view(old(out)@) + notes_out(
            num_fn(*num),
            notes_view(notes@),
        ),
        deterministic(*num) ==> out_view(final(err)@) == out_view(old(err)@) + notes_err(
            num_fn(*num),
            notes_view(notes@),
        ),
{
    let ghost nf = num_fn(*num);
    let mut i: usize = 0;
    while i < notes.len()
        invariant
            i <= notes@.len(),
            total(*num),
            nf == num_fn(*num),
            deterministic(*num) ==> out_view(out@) == out_view(old(out)@) + notes_out(
                nf,
                notes_view(notes@.take(i as int)),
            ),
            deterministic(*num) ==> out_view(err@) == out_view(old(err)@) + notes_err(
                nf,
                notes_view(notes@.take(i as int)),
            ),
        decreases notes.len() - i,
    {
        let text = notes[i].text(num);
        let to_err = match &notes[i] {
            ParseNote::IfCondition(_) => true,
            _ => false,
        };
        let ghost prev_out = out@;
        let ghost prev_err = err@;
        if to_err {
            err.push(text);
        } else {
            out.push(text);
        }
        proof {
            let t = notes_view(notes@.take(i + 1));
            assert(t.drop_last() =~= notes_view(notes@.take(i as int)));
            assert(t.last() == notes@[i as int]@);
            if deterministic(*num) {
                if to_err {
                    assert(out_view(err@) =~= out_view(prev_err).push(text@));
                    assert(out_view(out@) =~= out_view(prev_out));
                } else {
                    assert(out_view(out@) =~= out_view(prev_out).push(text@));
                    assert(out_view(err@) =~= out_view(prev_err));
                }
            }
        }
        i = i + 1;
    }
    proof {
        assert(notes@.take(notes@.len() as int) =~= notes@);
    }
}

/// Scanning an ASCII source never stops at a cut inside a character.
proof fn lemma_ascii_source_uncut(code: Seq<char>)
    requires
        is_ascii_chars(code),
    ensures
        !scanned(code).cut,
{
    reveal(scanned);
    lemma_ascii_scan_uncut(code, 0, 1, Seq::empty(), Seq::empty());
}

/// The sources that `run` takes: those short enough to be scanned, and,
/// where an ASCII source scans without errors, whose tokens do not end right
/// after the comma that follows a 255th call argument (the parser has no
/// token to report the next argument at).
pub open spec fn runnable(code: Seq<char>) -> bool {
    &&& code.len() < MAX_SOURCE
    &&& is_ascii_chars(code) && scanned(code).errors.len() == 0 ==> !parsed(
        scanned(code).tokens,
    ).1.contains(NoteV::Error(ParsingError::TooManyArgs, None))
}

/// Whether `run` takes a source: scans and parses it to find out.
pub fn runnable_source(code: &str) -> (r: bool)
    ensures
        r == runnable(code@),
{
    let chars = str_chars(code);
    if chars.len() >= MAX_SOURCE {
        return false;
    }
    if !validate(code) {
        return true;
    }
    proof {
        reveal(scanned);
        reveal(parsed);
    }
    let report = scan_chars(&chars);
    let ScanReport { tokens, errors, cut: _ } = report;
    if errors.len() > 0 {
        return true;
    }
    !Parser::ends_inside_arguments(tokens)
}

/// Runs a source: scans it, parses it and interprets it, with `fuel` steps
/// at most; the lines it prints are appended to `out`, and those it prints
/// on the error stream to `err`.
pub fn run<F: Fn(NumOp) -> NumOut>(
    code: &str,
    fuel: u64,
    num: &F,
    out: &mut Vec<String>,
    err: &mut Vec<String>,
) -> (r: Result<(), LoxError>)
    requires
        runnable(code@),
        total(*num),
    ensures
        deterministic(*num) ==> out_view(final(out)@) == out_view(old(out)@) + run_source(
            num_fn(*num),
            fuel as nat,
            code@,
        ).0,
        deterministic(*num) ==> out_view(final(err)@) == out_view(old(err)@) + run_source(
            num_fn(*num),
            fuel as nat,
            code@,
        ).1,
        deterministic(*num) ==> lox_result(r) == run_source(num_fn(*num), fuel as nat, code@).2,
        !is_ascii_chars(code@) || scanned(code@).errors.len() > 0 ==> {
            &&& out_view(final(out)@) == out_view(old(out)@) + run_source(
                num_fn(*num),
                fuel as nat,
                code@,
            ).0
            &&& out_view(final(err)@) == out_view(old(err)@) + run_source(
                num_fn(*num),
                fuel as nat,
                code@,
            ).1
            &&& lox_result(r) == run_source(num_fn(*num), fuel as nat, code@).2
        },
{
    if !validate(code) {
        proof {
            assert(out_view(final(out)@) =~= out_view(old(out)@) + Seq::empty());
            assert(out_view(final(err)@) =~= out_view(old(err)@) + Seq::empty());
        }
        return Err(LoxError::NotAscii);
    }
    proof {
        lemma_ascii_source_uncut(code@);
    }
    let report = scan_stage(code);
    let ScanReport { tokens, errors, cut: _ } = report;
    report_scanning_errors(&errors, err);
    if errors.len() > 0 {
        proof {
            assert(out_view(final(out)@) =~= out_view(old(out)@) + Seq::empty());
        }
        let last = errors[errors.len() - 1];
        return Err(LoxError::ScanningError(last.0));
    }
    let (parsed_statements, notes) = parse_stage(tokens);
    let ghost after_scan = err@;
    show_notes(&notes, num, out, err);
    proof {
        assert(scan_reports(errors_view(errors@)) =~= Seq::empty());
    }
    let statements = match parsed_statements {
        Ok(statements) => statements,
        Err(e) => {
            return Err(LoxError::ParsingError(e));
        },
    };
    let ghost before_run = out@;
    let (output, result) = interpret_stage(&statements, fuel, num);
    append_lines(out, &output);
    proof {
        if deterministic(*num) {
            assert(out_view(out@) =~= out_view(old(out)@) + run_source(
                num_fn(*num),
                fuel as nat,
                code@,
            ).0);
        }
    }
    match result {
        Ok(()) => Ok(()),
        Err(x) => Err(LoxError::RuntimeError(x)),
    }
}

/// The interpreter's entry point, with the step budget that its runs have.
pub struct Lox {
    pub fuel: u64,
}

impl Lox {
    /// An interpreter whose runs may take as many steps as a `u64` counts.
    pub fn new() -> (r: Self)
        ensures
            r.fuel == u64::MAX,
    {
        Lox { fuel: u64::MAX }
    }

    /// Runs a source (see `run`).
    pub fn run<F: Fn(NumOp) -> NumOut>(
        &mut self,
        message: &str,
        num: &F,
        out: &mut Vec<String>,
        err: &mut Vec<String>,
    ) -> (r: Result<(), LoxError>)
        requires
            runnable(message@),
            total(*num),
        ensures
            final(self).fuel == old(self).fuel,
            deterministic(*num) ==> out_view(final(out)@) == out_view(old(out)@) + run_source(
                num_fn(*num),
                old(self).fuel as nat,
                message@,
            ).0,
            deterministic(*num) ==> out_view(final(err)@) == out_view(old(err)@) + run_source(
                num_fn(*num),
                old(self).fuel as nat,
                message@,
            ).1,
            deterministic(*num) ==> lox_result(r) == run_source(
                num_fn(*num),
                old(self).fuel as nat,
                message@,
            ).2,
            !is_ascii_chars(message@) || scanned(message@).errors.len() > 0 ==> {
                &&& out_view(final(out)@) == out_view(old(out)@) + run_source(
                    num_fn(*num),
                    old(self).fuel as nat,
                    message@,
                ).0
                &&& out_view(final(err)@) == out_view(old(err)@) + run_source(
                    num_fn(*num),
                    old(self).fuel as nat,
                    message@,
                ).1
                &&& lox_result(r) == run_source(num_fn(*num), old(self).fuel as nat, message@).2
            },
    {
        run(message, self.fuel, num, out, err)
    }
}

} // verus!
