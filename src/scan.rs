//! The line scanner: a two-state machine that pairs each accepted line
//! with the one before it and reports the pairs whose difference passes
//! the threshold comparison.
use vstd::prelude::*;
use crate::decimal::{decimal, push_u64};
use crate::format::{Format, ValueError, value_error_text};
use crate::text::{append_chars, chars_of, field, field_exec, occurs_at_exec, same_chars,
    starts_with, string_of, trim, trimmed};
use crate::value::{Comparison, Difference, Value};

verus! {

/// How qualifying pairs are reported.
#[derive(Debug)]
pub enum Mode {
    /// One line per pair: the two values' display forms joined by the
    /// output delimiter.
    Diff(String),
    /// The two raw lines of each pair, pairs separated by a blank line.
    Filter,
}

/// All run parameters, as a front end collects them.
#[derive(Debug)]
pub struct Arguments {
    pub delimiter: String,
    pub index: u16,
    pub format: Format,
    pub comparison: Comparison,
    pub difference: Difference,
    pub comment: String,
    pub allow_empty: bool,
    pub verbose: bool,
    pub mode: Mode,
    /// The input file, or `-` for standard input.
    pub path: String,
}

/// The run parameters after the start-up normalisation.
pub struct Settings {
    pub delimiter: Seq<char>,
    pub index: nat,
    pub format: Format,
    pub comparison: Comparison,
    pub threshold: Difference,
    pub comment: Seq<char>,
    pub allow_empty: bool,
    /// The output delimiter in diff mode; `None` in filter mode.
    pub out_delim: Option<Seq<char>>,
}

/// What the scanner remembers between lines.
pub struct ScanState {
    /// The last accepted line (trimmed) and its value.
    pub prev: Option<(Seq<char>, Value)>,
    /// Whether a pair has been reported yet.
    pub emitted: bool,
    /// How many lines have been read.
    pub lines: nat,
}

/// Why a line aborts the run.
pub enum LineError {
    Empty,
    EmptyField,
    NoField,
    /// The field text and why it could not be read.
    Parse(Seq<char>, ValueError),
}

/// Where a run ends up after some lines.
pub struct RunResult {
    pub state: ScanState,
    pub output: Seq<char>,
    pub failure: Option<LineError>,
}

/// The two-character escape `\t` read as a tab.
pub open spec fn unescape_tab(s: Seq<char>) -> Seq<char> {
    if s == seq!['\\', 't'] {
        seq!['\t']
    } else {
        s
    }
}

/// Whether a threshold is of the kind that subtracting two values of the
/// format gives.
pub open spec fn fits_format(f: Format, d: Difference) -> bool {
    f.is_temporal() <==> d is Duration
}

/// Whether a value is of the kind that the format produces.
pub open spec fn of_format(f: Format, v: Value) -> bool {
    &&& v.wf()
    &&& (f.is_temporal() <==> v is Timestamp)
}

/// The settings that the arguments give, or `None` for the contradictory
/// empty delimiter with an index other than 1.
pub open spec fn settings_of(a: Arguments) -> Option<Settings> {
    let d = unescape_tab(a.delimiter@);
    if d.len() == 0 && a.index != 1 {
        None
    } else {
        Some(
            Settings {
                delimiter: d,
                index: a.index as nat,
                format: a.format,
                comparison: a.comparison,
                threshold: a.difference,
                comment: a.comment@,
                allow_empty: a.allow_empty,
                out_delim: match a.mode {
                    Mode::Diff(o) => Some(if o@.len() == 0 { d } else { unescape_tab(o@) }),
                    Mode::Filter => None,
                },
            },
        )
    }
}

/// The scanner's state before the first line.
pub open spec fn initial_state() -> ScanState {
    ScanState { prev: None, emitted: false, lines: 0 }
}

/// What one raw line gives: skipped (`None`), accepted with its trimmed
/// text and value, or an error.
pub open spec fn classify(cfg: Settings, raw: Seq<char>) -> Result<Option<(Seq<char>, Value)>, LineError> {
    let line = trim(raw);
    if cfg.comment.len() > 0 && starts_with(line, cfg.comment) {
        Ok(None)
    } else if line.len() == 0 {
        if cfg.allow_empty { Ok(None) } else { Err(LineError::Empty) }
    } else {
        let f = if cfg.delimiter.len() == 0 {
            Some(line)
        } else {
            field(line, cfg.delimiter, (cfg.index - 1) as nat)
        };
        match f {
            None => if cfg.allow_empty { Ok(None) } else { Err(LineError::NoField) },
            Some(x) => if x.len() == 0 {
                if cfg.allow_empty { Ok(None) } else { Err(LineError::EmptyField) }
            } else {
                match cfg.format.value_of(x) {
                    Ok(v) => Ok(Some((line, v))),
                    Err(e) => Err(LineError::Parse(x, e)),
                }
            },
        }
    }
}

/// The report of one qualifying pair.
pub open spec fn report(cfg: Settings, emitted: bool, prev: (Seq<char>, Value), cur: (Seq<char>, Value)) -> Seq<char> {
    match cfg.out_delim {
        Some(d) => prev.1.text() + d + cur.1.text() + "\n"@,
        None => (if emitted { "\n"@ } else { Seq::empty() }) + prev.0 + "\n"@ + cur.0 + "\n"@,
    }
}

/// One transition: the next state and the text to emit, or the error that
/// ends the run.
pub open spec fn step(cfg: Settings, s: ScanState, raw: Seq<char>) -> Result<(ScanState, Seq<char>), LineError> {
    let lines = s.lines + 1;
    match classify(cfg, raw) {
        Err(e) => Err(e),
        Ok(None) => Ok((ScanState { lines, ..s }, Seq::empty())),
        Ok(Some(cur)) => match s.prev {
            None => Ok((ScanState { prev: Some(cur), emitted: s.emitted, lines }, Seq::empty())),
            Some(p) => if cfg.comparison.holds(cur.1.minus(p.1), cfg.threshold) {
                Ok((ScanState { prev: Some(cur), emitted: true, lines }, report(cfg, s.emitted, p, cur)))
            } else {
                Ok((ScanState { prev: Some(cur), emitted: s.emitted, lines }, Seq::empty()))
            },
        },
    }
}

/// The run over `lines`, stopping at the first error.
pub open spec fn run(cfg: Settings, lines: Seq<Seq<char>>) -> RunResult
    decreases lines.len(),
{
    if lines.len() == 0 {
        RunResult { state: initial_state(), output: Seq::empty(), failure: None }
    } else {
        let r = run(cfg, lines.drop_last());
        if r.failure is Some {
            r
        } else {
            match step(cfg, r.state, lines.last()) {
                Err(e) => RunResult { state: r.state, output: r.output, failure: Some(e) },
                Ok((s, out)) => RunResult { state: s, output: r.output + out, failure: None },
            }
        }
    }
}

/// The message of a line error on line `n`.
pub open spec fn line_error_text(cfg: Settings, n: nat, e: LineError) -> Seq<char> {
    let head = "line "@ + decimal(n);
    match e {
        LineError::Empty => head + " is empty"@,
        LineError::EmptyField => head + " is invalid: empty field at index "@ + decimal(cfg.index),
        LineError::NoField => head + " is invalid: no field could be found at index "@ + decimal(cfg.index),
        LineError::Parse(f, v) => head + " field '"@ + f + "' "@ + value_error_text(f, v),
    }
}

/// The text of the start-up error.
pub open spec fn config_error_text() -> Seq<char> {
    "supplied index and delimiter are incompatible"@
}

/// The scanner: the normalised settings and the state carried from line to
/// line.
pub struct Scanner {
    delimiter: Vec<char>,
    index: u16,
    format: Format,
    comparison: Comparison,
    threshold: Difference,
    comment: Vec<char>,
    allow_empty: bool,
    out_delim: Option<Vec<char>>,
    prev: Option<(Vec<char>, Value)>,
    emitted: bool,
    lines: u64,
}

fn unescape_tab_exec(s: &Vec<char>) -> (r: Vec<char>)
    ensures
        r@ == unescape_tab(s@),
{
    if s.len() == 2 && s[0] == '\\' && s[1] == 't' {
        assert(s@ =~= seq!['\\', 't']);
        let mut t: Vec<char> = Vec::new();
        t.push('\t');
        assert(t@ =~= seq!['\t']);
        t
    } else {
        assert(s@ != seq!['\\', 't']) by {
            if s@ == seq!['\\', 't'] {
                assert(s@[0] == '\\' && s@[1] == 't');
            }
        }
        s.clone()
    }
}

fn line_head(n: u64) -> (r: String)
    ensures
        r@ == "line "@ + decimal(n as nat),
{
    let mut m = String::from_str("line ");
    push_u64(&mut m, n);
    m
}

impl Scanner {
    pub closed spec fn settings(&self) -> Settings {
        Settings {
            delimiter: self.delimiter@,
            index: self.index as nat,
            format: self.format,
            comparison: self.comparison,
            threshold: self.threshold,
            comment: self.comment@,
            allow_empty: self.allow_empty,
            out_delim: match self.out_delim {
                Some(d) => Some(d@),
                None => None,
            },
        }
    }

    pub closed spec fn state(&self) -> ScanState {
        ScanState {
            prev: match self.prev {
                Some((l, v)) => Some((l@, v)),
                None => None,
            },
            emitted: self.emitted,
            lines: self.lines as nat,
        }
    }

    pub closed spec fn wf(&self) -> bool {
        &&& self.index >= 1
        &&& fits_format(self.format, self.threshold)
        &&& self.prev matches Some((_, v)) ==> of_format(self.format, v)
    }

    /// Normalises the arguments: `\t` as a delimiter means a tab, an empty
    /// output delimiter means the input one, and an empty input delimiter
    /// with an index other than 1 is refused.
    pub fn new(args: Arguments) -> (r: Result<Scanner, String>)
        requires
            args.index >= 1,
            fits_format(args.format, args.difference),
        ensures
            match settings_of(args) {
                None => r matches Err(m) && m@ == config_error_text(),
                Some(cfg) => r matches Ok(s) && s.wf() && s.settings() == cfg && s.state() == initial_state(),
            },
    {
        let delimiter = unescape_tab_exec(&chars_of(args.delimiter.as_str()));
        if delimiter.len() == 0 && args.index != 1 {
            return Err(String::from_str("supplied index and delimiter are incompatible"));
        }
        let out_delim = match &args.mode {
            Mode::Diff(o) => {
                let oc = chars_of(o.as_str());
                if oc.len() == 0 {
                    Some(delimiter.clone())
                } else {
                    Some(unescape_tab_exec(&oc))
                }
            },
            Mode::Filter => None,
        };
        let s = Scanner {
            delimiter,
            index: args.index,
            format: args.format,
            comparison: args.comparison,
            threshold: args.difference,
            comment: chars_of(args.comment.as_str()),
            allow_empty: args.allow_empty,
            out_delim,
            prev: None,
            emitted: false,
            lines: 0,
        };
        assert(s.settings().out_delim == settings_of(args)->0.out_delim);
        Ok(s)
    }

    /// How many lines have been read.
    pub fn lines_read(&self) -> (r: u64)
        ensures
            r == self.state().lines,
    {
        self.lines
    }

    /// Takes one raw line: returns the text to emit for it (often empty),
    /// or the message of the error that ends the run.
    pub fn feed(&mut self, raw: &str) -> (r: Result<String, String>)
        requires
            old(self).wf(),
            old(self).state().lines < u64::MAX,
        ensures
            final(self).wf(),
            final(self).settings() == old(self).settings(),
            match step(old(self).settings(), old(self).state(), raw@) {
                Ok((s, out)) => r matches Ok(o) && o@ == out && final(self).state() == s,
                Err(e) => r matches Err(m) && m@ == line_error_text(
                    old(self).settings(),
                    old(self).state().lines + 1,
                    e,
                ),
            },
    {
        self.lines = self.lines + 1;
        let n = self.lines;
        let line = trimmed(&chars_of(raw));
        if self.comment.len() > 0 && occurs_at_exec(&line, &self.comment, 0) {
            return Ok(String::new());
        }
        if line.len() == 0 {
            if self.allow_empty {
                return Ok(String::new());
            }
            let mut m = line_head(n);
            m.append(" is empty");
            return Err(m);
        }
        let found = if self.delimiter.len() == 0 {
            Some(line.clone())
        } else {
            field_exec(&line, &self.delimiter, (self.index - 1) as usize)
        };
        let f = match found {
            None => {
                if self.allow_empty {
                    return Ok(String::new());
                }
                let mut m = line_head(n);
                m.append(" is invalid: no field could be found at index ");
                push_u64(&mut m, self.index as u64);
                return Err(m);
            },
            Some(f) => f,
        };
        if f.len() == 0 {
            if self.allow_empty {
                return Ok(String::new());
            }
            let mut m = line_head(n);
            m.append(" is invalid: empty field at index ");
            push_u64(&mut m, self.index as u64);
            return Err(m);
        }
        let fs = string_of(&f);
        let v = match self.format.parse_value(fs.as_str()) {
            Ok(v) => v,
            Err(e) => {
                let mut m = line_head(n);
                m.append(" field '");
                append_chars(&mut m, &f);
                m.append("' ");
                let ghost mm = m@;
                m.append(e.as_str());
                proof {
                    let le = LineError::Parse(f@, self.format.value_of(f@)->Err_0);
                    assert(classify(old(self).settings(), raw@) == Err::<Option<(Seq<char>, Value)>, LineError>(le));
                    let t = line_error_text(old(self).settings(), n as nat, le);
                    assert(mm == "line "@ + decimal(n as nat) + " field '"@ + f@ + "' "@);
                    assert(t == mm + value_error_text(f@, le->Parse_1));
                    assert(m@ =~= t);
                }
                return Err(m);
            },
        };
        let ghost cfg = old(self).settings();
        assert(classify(cfg, raw@) == Ok::<Option<(Seq<char>, Value)>, LineError>(Some((line@, v))));
        let mut out = String::new();
        let mut hit = false;
        match &self.prev {
            Some((pl, pv)) => {
                let d = v.sub(*pv);
                if self.comparison.compare(&d, &self.threshold) {
                    hit = true;
                    match &self.out_delim {
                        Some(od) => {
                            pv.write_to(&mut out);
                            append_chars(&mut out, od);
                            v.write_to(&mut out);
                            out.append("\n");
                        },
                        None => {
                            if self.emitted {
                                out.append("\n");
                            }
                            append_chars(&mut out, pl);
                            out.append("\n");
                            append_chars(&mut out, &line);
                            out.append("\n");
                        },
                    }
                }
            },
            None => {},
        }
        if hit {
            self.emitted = true;
        }
        self.prev = Some((line, v));
        proof {
            let st = old(self).state();
            match st.prev {
                None => {
                    assert(out@ =~= Seq::<char>::empty());
                },
                Some(p) => {
                    if cfg.comparison.holds(v.minus(p.1), cfg.threshold) {
                        assert(hit);
                        assert(out@ =~= report(cfg, st.emitted, p, (line@, v)));
                    } else {
                        assert(out@ =~= Seq::<char>::empty());
                    }
                },
            }
        }
        Ok(out)
    }
}

/// The outcome of a whole run: everything emitted, and the message of the
/// error that ended it early, if any.
pub struct Report {
    pub output: String,
    pub error: Option<String>,
}

/// The characters of each line.
pub open spec fn line_texts(lines: Seq<String>) -> Seq<Seq<char>> {
    lines.map_values(|l: String| l@)
}

/// Whether `r` is what a run with `args` over `lines` reports.
pub open spec fn reports_run(args: Arguments, lines: Seq<String>, r: Report) -> bool {
    match settings_of(args) {
        None => r.output@ == Seq::<char>::empty() && (r.error matches Some(m) && m@ == config_error_text()),
        Some(cfg) => {
            let res = run(cfg, line_texts(lines));
            &&& r.output@ == res.output
            &&& (r.error is None <==> res.failure is None)
            &&& res.failure matches Some(e) ==> r.error matches Some(m) && m@ == line_error_text(
                cfg,
                res.state.lines + 1,
                e,
            )
        },
    }
}

/// Scans `lines` with `args`: the start-up normalisation, then one
/// transition per line until the input ends or a line fails.
pub fn csv_detect_missing(args: Arguments, lines: &Vec<String>) -> (r: Report)
    requires
        args.index >= 1,
        fits_format(args.format, args.difference),
    ensures
        reports_run(args, lines@, r),
{
    let ghost cfg0 = settings_of(args);
    let mut sc = match Scanner::new(args) {
        Ok(s) => s,
        Err(m) => return Report { output: String::new(), error: Some(m) },
    };
    let ghost cfg = cfg0->0;
    let mut output = String::new();
    let mut i: usize = 0;
    while i < lines.len()
        invariant
            i <= lines.len(),
            sc.wf(),
            sc.settings() == cfg,
            settings_of(args) == Some(cfg),
            run(cfg, line_texts(lines@.take(i as int))).failure is None,
            run(cfg, line_texts(lines@.take(i as int))).state == sc.state(),
            run(cfg, line_texts(lines@.take(i as int))).output == output@,
            sc.state().lines == i,
        decreases lines.len() - i,
    {
        let ghost before = line_texts(lines@.take(i as int));
        let ghost after = line_texts(lines@.take(i + 1));
        assert(after.drop_last() =~= before);
        assert(after.last() == lines@[i as int]@);
        let ghost st = sc.state();
        match sc.feed(lines[i].as_str()) {
            Ok(o) => {
                output.append(o.as_str());
            },
            Err(m) => {
                proof {
                    let e = step(cfg, st, lines@[i as int]@)->Err_0;
                    assert(step(cfg, st, lines@[i as int]@) is Err);
                    assert(run(cfg, after).failure == Some(e));
                    assert(run(cfg, after).state == st);
                    assert(run(cfg, after).output == output@);
                    lemma_run_stops(cfg, line_texts(lines@), i as int + 1);
                    assert(line_texts(lines@).take(i + 1) =~= after);
                    assert(run(cfg, line_texts(lines@)) == run(cfg, after));
                    assert(m@ == line_error_text(cfg, st.lines + 1, e));
                }
                return Report { output, error: Some(m) };
            },
        }
        i += 1;
    }
    assert(lines@.take(i as int) =~= lines@);
    Report { output, error: None }
}

/// Two runs with the same arguments over the same lines emit the same
/// output and both succeed or both fail.
pub proof fn lemma_run_deterministic(args: Arguments, lines: Seq<String>, r1: Report, r2: Report)
    requires
        reports_run(args, lines, r1),
        reports_run(args, lines, r2),
    ensures
        r1.output@ == r2.output@,
        r1.error is None <==> r2.error is None,
        r1.error matches Some(m1) ==> (r2.error matches Some(m2) && m1@ == m2@),
{
}

/// An empty input delimiter with a field index other than 1 is refused
/// before any line is looked at: nothing is emitted, whatever the input.
pub proof fn lemma_incompatible_delimiter(args: Arguments, lines: Seq<String>, r: Report)
    requires
        args.delimiter@.len() == 0,
        args.index != 1,
        reports_run(args, lines, r),
    ensures
        r.output@.len() == 0,
        r.error matches Some(m) && m@ == config_error_text(),
{
    assert(unescape_tab(args.delimiter@) == args.delimiter@) by {
        if args.delimiter@ == seq!['\\', 't'] {
            assert(args.delimiter@.len() == 2);
        }
    }
}

/// A run that has not failed has read every line.
proof fn lemma_run_counts(cfg: Settings, lines: Seq<Seq<char>>)
    requires
        run(cfg, lines).failure is None,
    ensures
        run(cfg, lines).state.lines == lines.len(),
    decreases lines.len(),
{
    if lines.len() > 0 {
        lemma_run_counts(cfg, lines.drop_last());
    }
}

/// Without tolerance for empty lines, the first line that is empty after
/// trimming ends the run with a message naming its 1-based number, and the
/// output is what the lines before it alone give.
pub proof fn lemma_first_empty_line(args: Arguments, lines: Seq<String>, k: int, r: Report, r0: Report)
    requires
        settings_of(args) is Some,
        !args.allow_empty,
        1 <= k <= lines.len(),
        trim(lines[k - 1]@).len() == 0,
        reports_run(args, lines.take(k - 1), r0),
        r0.error is None,
        reports_run(args, lines, r),
    ensures
        r.error matches Some(m) && m@ == "line "@ + decimal(k as nat) + " is empty"@,
        r.output@ == r0.output@,
{
    let cfg = settings_of(args)->0;
    let all = line_texts(lines);
    let before = line_texts(lines.take(k - 1));
    assert(all.take(k - 1) =~= before);
    assert(all.take(k).drop_last() =~= before);
    assert(all.take(k).last() == lines[k - 1]@);
    lemma_run_counts(cfg, before);
    assert(!starts_with(trim(lines[k - 1]@), cfg.comment) || cfg.comment.len() == 0);
    assert(classify(cfg, lines[k - 1]@) matches Err(LineError::Empty));
    assert(run(cfg, all.take(k)).failure == Some(LineError::Empty));
    lemma_run_stops(cfg, all, k);
}

/// Once a prefix of the input fails, the whole run fails the same way.
proof fn lemma_run_stops(cfg: Settings, lines: Seq<Seq<char>>, k: int)
    requires
        0 <= k <= lines.len(),
        run(cfg, lines.take(k)).failure is Some,
    ensures
        run(cfg, lines) == run(cfg, lines.take(k)),
    decreases lines.len() - k,
{
    if k < lines.len() {
        assert(lines.take(k + 1).drop_last() =~= lines.take(k));
        lemma_run_stops(cfg, lines, k + 1);
    } else {
        assert(lines.take(k) =~= lines);
    }
}

} // verus!
