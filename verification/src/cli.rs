use vstd::prelude::*;
use vstd::string::*;

use crate::text::{chars_of, owned, seq_eq, string_of_range};

verus! {

/// How an option of a command takes values.
#[derive(Debug, Clone, Copy, PartialEq, Eq, Structural)]
pub enum OptKind {
    /// `--name`, no value, at most once.
    Flag,
    /// `--name value` or `--name=value`, at most once.
    Single,
    /// `--name value`, any number of times.
    Multi,
}

/// The argument grammar of one command level: its long options, how many
/// positional values it takes (`pos_required` of them at least, `pos_limit`
/// at most) and the names of its subcommands.
pub struct CmdSpec {
    pub longs: Vec<&'static str>,
    pub kinds: Vec<OptKind>,
    pub pos_limit: usize,
    pub pos_required: usize,
    pub subs: Vec<&'static str>,
}

/// Why a command line was rejected. Token positions count the program name
/// as position 0.
#[derive(Debug, Clone, Copy, PartialEq, Eq)]
pub enum CliError {
    /// No subcommand was given.
    MissingSubcommand,
    /// The token at this position is not a known subcommand.
    UnknownSubcommand(usize),
    /// The token at this position is an unknown option.
    UnknownArgument(usize),
    /// The option at this position needs a value and got none.
    MissingValue(usize),
    /// The flag at this position was given a value.
    UnexpectedValue(usize),
    /// The option at this position was already given.
    DuplicateArgument(usize),
    /// The positional argument with this (0-based) number is missing.
    MissingPositional(usize),
    /// The token at this position is one positional argument too many.
    UnexpectedPositional(usize),
    /// The required option with this long name was not given.
    MissingOption(&'static str),
    /// Two options that exclude each other were both given.
    Conflict(&'static str, &'static str),
    /// `--help`, `-h` or `help` was given.
    HelpRequested,
}

/// The character sequences of a list of string slices.
pub open spec fn strs_view(v: Seq<&'static str>) -> Seq<Seq<char>> {
    Seq::new(v.len(), |i: int| v[i]@)
}

/// The character sequences of the command-line tokens.
pub open spec fn args_view(v: Seq<&str>) -> Seq<Seq<char>> {
    Seq::new(v.len(), |i: int| v[i]@)
}

/// The argument grammar of one command level, as sequences.
pub struct Grammar {
    pub longs: Seq<Seq<char>>,
    pub kinds: Seq<OptKind>,
    pub pos_limit: int,
    pub pos_required: int,
    pub subs: Seq<Seq<char>>,
}

impl CmdSpec {
    pub open spec fn wf(&self) -> bool {
        &&& self.longs.len() == self.kinds.len()
        &&& self.pos_required <= self.pos_limit
    }

    pub open spec fn view(&self) -> Grammar {
        Grammar {
            longs: strs_view(self.longs@),
            kinds: self.kinds@,
            pos_limit: self.pos_limit as int,
            pos_required: self.pos_required as int,
            subs: strs_view(self.subs@),
        }
    }
}

/// The first position at or after `from` of `=` in `x`, or -1.
pub open spec fn first_eq(x: Seq<char>, from: int) -> int
    decreases x.len() - from,
{
    if from < 0 || from >= x.len() {
        -1
    } else if x[from] == '=' {
        from
    } else {
        first_eq(x, from + 1)
    }
}

/// The first position at or after `from` of `name` in `names`, or -1.
pub open spec fn find_name(names: Seq<Seq<char>>, name: Seq<char>, from: int) -> int
    decreases names.len() - from,
{
    if from < 0 || from >= names.len() {
        -1
    } else if names[from] == name {
        from
    } else {
        find_name(names, name, from + 1)
    }
}

/// A token that clap reads as an option rather than as a value.
pub open spec fn option_like(x: Seq<char>) -> bool {
    x.len() > 1 && x[0] == '-'
}

/// The options seen so far (option number and value, in order), the
/// positional values, and whether `--` has been seen.
pub struct ScanState {
    pub vals: Seq<(int, Seq<char>)>,
    pub pos: Seq<Seq<char>>,
    pub dashdash: bool,
}

/// The result of reading one token.
pub enum Step {
    Continue(ScanState, int),
    Sub(ScanState, int, int),
    Fail(CliError),
}

pub open spec fn has_opt(vals: Seq<(int, Seq<char>)>, k: int) -> bool {
    exists|j: int| 0 <= j < vals.len() && (#[trigger] vals[j]).0 == k
}

pub open spec fn dd() -> Seq<char> {
    seq!['-', '-']
}

pub open spec fn help_long() -> Seq<char> {
    seq!['-', '-', 'h', 'e', 'l', 'p']
}

pub open spec fn help_short() -> Seq<char> {
    seq!['-', 'h']
}

/// Reading the token at position `i`.
pub open spec fn step(c: Grammar, toks: Seq<Seq<char>>, i: int, st: ScanState) -> Step {
    let x = toks[i];
    if !st.dashdash && x == dd() {
        Step::Continue(ScanState { dashdash: true, ..st }, i + 1)
    } else if !st.dashdash && (x == help_long() || x == help_short()) {
        Step::Fail(CliError::HelpRequested)
    } else if !st.dashdash && x.len() > 2 && x[0] == '-' && x[1] == '-' {
        let body = x.skip(2);
        let e = first_eq(body, 0);
        let name = if e < 0 { body } else { body.take(e) };
        let k = find_name(c.longs, name, 0);
        if k < 0 {
            Step::Fail(CliError::UnknownArgument(i as usize))
        } else if c.kinds[k] == OptKind::Flag {
            if e >= 0 {
                Step::Fail(CliError::UnexpectedValue(i as usize))
            } else if has_opt(st.vals, k) {
                Step::Fail(CliError::DuplicateArgument(i as usize))
            } else {
                Step::Continue(ScanState { vals: st.vals.push((k, Seq::empty())), ..st }, i + 1)
            }
        } else if c.kinds[k] == OptKind::Single && has_opt(st.vals, k) {
            Step::Fail(CliError::DuplicateArgument(i as usize))
        } else if e >= 0 {
            Step::Continue(ScanState { vals: st.vals.push((k, body.skip(e + 1))), ..st }, i + 1)
        } else if i + 1 >= toks.len() || option_like(toks[i + 1]) {
            Step::Fail(CliError::MissingValue(i as usize))
        } else {
            Step::Continue(ScanState { vals: st.vals.push((k, toks[i + 1])), ..st }, i + 2)
        }
    } else if !st.dashdash && option_like(x) {
        Step::Fail(CliError::UnknownArgument(i as usize))
    } else if !st.dashdash && find_name(c.subs, x, 0) >= 0 {
        Step::Sub(st, find_name(c.subs, x, 0), i + 1)
    } else if st.pos.len() >= c.pos_limit {
        Step::Fail(CliError::UnexpectedPositional(i as usize))
    } else {
        Step::Continue(ScanState { pos: st.pos.push(x), ..st }, i + 1)
    }
}

/// What remains once every token of a command level is read: the positional
/// count is checked.
pub open spec fn finish(c: Grammar, st: ScanState) -> Result<(ScanState, Option<(int, int)>), CliError> {
    if st.pos.len() < c.pos_required {
        Err(CliError::MissingPositional(st.pos.len() as usize))
    } else {
        Ok((st, None))
    }
}

/// Reading the tokens from position `i` on: the options and positional
/// values of one command level, and the subcommand found (its number and the
/// position after it), if any.
pub open spec fn scan(c: Grammar, toks: Seq<Seq<char>>, i: int, st: ScanState) -> Result<(ScanState, Option<(int, int)>), CliError>
    decreases toks.len() - i,
{
    if i < 0 || i >= toks.len() {
        finish(c, st)
    } else {
        match step(c, toks, i, st) {
            Step::Continue(st2, j) => if j > i { scan(c, toks, j, st2) } else { finish(c, st2) },
            Step::Sub(st2, k, j) => Ok((st2, Some((k, j)))),
            Step::Fail(e) => Err(e),
        }
    }
}

pub open spec fn empty_state() -> ScanState {
    ScanState { vals: Seq::empty(), pos: Seq::empty(), dashdash: false }
}

/// The values given for option `k`, in order.
pub open spec fn values_of(vals: Seq<(int, Seq<char>)>, k: int) -> Seq<Seq<char>>
    decreases vals.len(),
{
    if vals.len() == 0 {
        Seq::empty()
    } else if vals.last().0 == k {
        values_of(vals.drop_last(), k).push(vals.last().1)
    } else {
        values_of(vals.drop_last(), k)
    }
}

/// The exec state of a scan.
pub struct ScanExec {
    pub vals: Vec<(usize, String)>,
    pub pos: Vec<String>,
    pub dashdash: bool,
}

impl ScanExec {
    pub open spec fn view(&self) -> ScanState {
        ScanState {
            vals: Seq::new(self.vals@.len(), |j: int| (self.vals@[j].0 as int, self.vals@[j].1@)),
            pos: Seq::new(self.pos@.len(), |j: int| self.pos@[j]@),
            dashdash: self.dashdash,
        }
    }
}

/// The exec result of reading one token.
pub enum ExecStep {
    Continue(usize),
    Sub(usize, usize),
    Fail(CliError),
}

fn lit_eq(x: &Vec<char>, lit: &str) -> (r: bool)
    ensures r == (x@ == lit@),
{
    let l = chars_of(lit);
    seq_eq(x, &l)
}

fn find_in(names: &Vec<&'static str>, name: &Vec<char>) -> (r: Option<usize>)
    ensures
        match r {
            Some(k) => find_name(strs_view(names@), name@, 0) == k as int && k < names.len(),
            None => find_name(strs_view(names@), name@, 0) == -1,
        },
{
    let mut k: usize = 0;
    while k < names.len()
        invariant
            k <= names.len(),
            find_name(strs_view(names@), name@, 0) == find_name(strs_view(names@), name@, k as int),
        decreases names.len() - k,
    {
        let l = chars_of(names[k]);
        if seq_eq(&l, name) {
            return Some(k);
        }
        k += 1;
    }
    None
}

fn has_opt_exec(vals: &Vec<(usize, String)>, k: usize) -> (r: bool)
    ensures r == (exists|j: int| 0 <= j < vals@.len() && vals@[j].0 == k),
{
    let mut j: usize = 0;
    while j < vals.len()
        invariant
            j <= vals.len(),
            forall|m: int| 0 <= m < j ==> vals@[m].0 != k,
        decreases vals.len() - j,
    {
        if vals[j].0 == k {
            return true;
        }
        j += 1;
    }
    false
}

/// Reads the token at position `i`.
fn exec_step(c: &CmdSpec, args: &[&str], i: usize, st: &mut ScanExec) -> (r: ExecStep)
    requires
        c.wf(),
        i < args.len(),
    ensures
        match (r, step(c@, args_view(args@), i as int, old(st)@)) {
            (ExecStep::Continue(j), Step::Continue(s2, j2)) => j2 == j as int && final(st)@ == s2,
            (ExecStep::Sub(k, j), Step::Sub(s2, k2, j2)) => k2 == k as int && j2 == j as int && s2 == old(st)@ && k < c.subs.len(),
            (ExecStep::Fail(e), Step::Fail(e2)) => e == e2,
            _ => false,
        },
        r matches ExecStep::Continue(j) ==> i < j <= args.len(),
        r matches ExecStep::Sub(k, j) ==> j == i + 1,
        !(r matches ExecStep::Continue(_)) ==> final(st)@ == old(st)@,
{
    let ghost toks = args_view(args@);
    let x = chars_of(args[i]);
    proof { assert(x@ == toks[i as int]); }
    proof {
        reveal_strlit("--"); reveal_strlit("--help"); reveal_strlit("-h");
        assert("--"@ =~= dd());
        assert("--help"@ =~= help_long());
        assert("-h"@ =~= help_short());
    }
    if !st.dashdash && lit_eq(&x, "--") {
        st.dashdash = true;
        proof { assert(st@.vals =~= old(st)@.vals); assert(st@.pos =~= old(st)@.pos); }
        return ExecStep::Continue(i + 1);
    }
    if !st.dashdash && (lit_eq(&x, "--help") || lit_eq(&x, "-h")) {
        return ExecStep::Fail(CliError::HelpRequested);
    }
    if !st.dashdash && x.len() > 2 && x[0] == '-' && x[1] == '-' {
        let ghost body = x@.skip(2);
        let mut e: usize = 2;
        while e < x.len() && x[e] != '='
            invariant
                2 <= e <= x.len(),
                body == x@.skip(2),
                first_eq(body, 0) == first_eq(body, e - 2),
            decreases x.len() - e,
        {
            assert(body[e - 2] == x@[e as int]);
            e += 1;
        }
        proof {
            if e < x.len() { assert(first_eq(body, e - 2) == e - 2); } else { assert(first_eq(body, e - 2) == -1); }
        }
        let has_value = e < x.len();
        let name = vec_range(&x, 2, e);
        proof {
            if has_value { assert(name@ =~= body.take(e - 2)); } else { assert(name@ =~= body); }
        }
        let found = find_in(&c.longs, &name);
        match found {
            None => {
                return ExecStep::Fail(CliError::UnknownArgument(i));
            },
            Some(k) => {
                let kind = c.kinds[k];
                if kind == OptKind::Flag {
                    if has_value {
                        return ExecStep::Fail(CliError::UnexpectedValue(i));
                    }
                    if has_opt_exec(&st.vals, k) {
                        proof {
                            let j = choose|j: int| 0 <= j < st.vals@.len() && st.vals@[j].0 == k;
                            assert(st@.vals[j].0 == k as int);
                        }
                        return ExecStep::Fail(CliError::DuplicateArgument(i));
                    }
                    proof {
                        assert(!has_opt(st@.vals, k as int)) by {
                            if has_opt(st@.vals, k as int) {
                                let j = choose|j: int| 0 <= j < st@.vals.len() && (#[trigger] st@.vals[j]).0 == k as int;
                                assert(st.vals@[j].0 == k);
                            }
                        }
                    }
                    let ghost old_st = st@;
                    st.vals.push((k, String::new()));
                    proof { assert(st@.vals =~= old_st.vals.push((k as int, Seq::empty()))); assert(st@.pos =~= old_st.pos); }
                    return ExecStep::Continue(i + 1);
                }
                let dup = has_opt_exec(&st.vals, k);
                proof {
                    assert(dup == has_opt(st@.vals, k as int)) by {
                        if has_opt(st@.vals, k as int) {
                            let j = choose|j: int| 0 <= j < st@.vals.len() && (#[trigger] st@.vals[j]).0 == k as int;
                            assert(st.vals@[j].0 == k);
                        }
                        if dup {
                            let j = choose|j: int| 0 <= j < st.vals@.len() && st.vals@[j].0 == k;
                            assert(st@.vals[j].0 == k as int);
                        }
                    }
                }
                if kind == OptKind::Single && dup {
                    return ExecStep::Fail(CliError::DuplicateArgument(i));
                }
                let ghost old_st = st@;
                if has_value {
                    let v = string_of_range(&x, e + 1, x.len());
                    proof { assert(v@ =~= body.skip(e - 2 + 1)); }
                    st.vals.push((k, v));
                    proof { assert(st@.vals =~= old_st.vals.push((k as int, body.skip(e - 2 + 1)))); assert(st@.pos =~= old_st.pos); }
                    return ExecStep::Continue(i + 1);
                }
                if i + 1 >= args.len() {
                    return ExecStep::Fail(CliError::MissingValue(i));
                }
                let y = chars_of(args[i + 1]);
                proof { assert(y@ == toks[i + 1]); }
                if y.len() > 1 && y[0] == '-' {
                    return ExecStep::Fail(CliError::MissingValue(i));
                }
                let v = owned(args[i + 1]);
                st.vals.push((k, v));
                proof { assert(st@.vals =~= old_st.vals.push((k as int, toks[i + 1]))); assert(st@.pos =~= old_st.pos); }
                return ExecStep::Continue(i + 2);
            },
        }
    }
    if !st.dashdash && x.len() > 1 && x[0] == '-' {
        return ExecStep::Fail(CliError::UnknownArgument(i));
    }
    if !st.dashdash {
        let s = find_in(&c.subs, &x);
        if let Some(k) = s {
            return ExecStep::Sub(k, i + 1);
        }
    }
    if st.pos.len() >= c.pos_limit {
        return ExecStep::Fail(CliError::UnexpectedPositional(i));
    }
    let ghost old_st = st@;
    st.pos.push(owned(args[i]));
    proof { assert(st@.pos =~= old_st.pos.push(x@)); assert(st@.vals =~= old_st.vals); }
    ExecStep::Continue(i + 1)
}

fn vec_range(x: &Vec<char>, from: usize, to: usize) -> (r: Vec<char>)
    requires from <= to <= x.len(),
    ensures r@ == x@.subrange(from as int, to as int),
{
    let mut r: Vec<char> = Vec::new();
    let mut j = from;
    while j < to
        invariant
            from <= j <= to <= x.len(),
            r@ == x@.subrange(from as int, j as int),
        decreases to - j,
    {
        r.push(x[j]);
        proof { assert(x@.subrange(from as int, j + 1) =~= x@.subrange(from as int, j as int).push(x@[j as int])); }
        j += 1;
    }
    r
}

/// Reads one command level from position `start` on.
pub fn scan_exec(c: &CmdSpec, args: &[&str], start: usize) -> (r: Result<(ScanExec, Option<(usize, usize)>), CliError>)
    requires c.wf(),
    ensures
        match (r, scan(c@, args_view(args@), start as int, empty_state())) {
            (Ok((st, sub)), Ok((st2, sub2))) =>
                st@ == st2
                && match (sub, sub2) {
                    (None, None) => true,
                    (Some((k, j)), Some((k2, j2))) => k as int == k2 && j as int == j2 && k < c.subs.len() && j <= args.len(),
                    _ => false,
                },
            (Err(e), Err(e2)) => e == e2,
            _ => false,
        },
{
    let ghost toks = args_view(args@);
    let mut st = ScanExec { vals: Vec::new(), pos: Vec::new(), dashdash: false };
    proof {
        assert(st@.vals =~= empty_state().vals);
        assert(st@.pos =~= empty_state().pos);
    }
    let mut i = start;
    while i < args.len()
        invariant
            c.wf(),
            toks == args_view(args@),
            start <= i,
            scan(c@, toks, start as int, empty_state()) == scan(c@, toks, i as int, st@),
        decreases args.len() - i,
    {
        let ghost before = st@;
        match exec_step(c, args, i, &mut st) {
            ExecStep::Continue(j) => {
                i = j;
            },
            ExecStep::Sub(k, j) => {
                return Ok((st, Some((k, j))));
            },
            ExecStep::Fail(e) => {
                return Err(e);
            },
        }
    }
    if st.pos.len() < c.pos_required {
        return Err(CliError::MissingPositional(st.pos.len()));
    }
    Ok((st, None))
}


/// A scan that ends without a subcommand has read at least the required
/// positional values, and a level without subcommands never ends in one.
pub proof fn lemma_scan_result(c: Grammar, toks: Seq<Seq<char>>, i: int, st: ScanState)
    ensures
        scan(c, toks, i, st) matches Ok((st2, None)) ==> st2.pos.len() >= c.pos_required,
        c.subs.len() == 0 ==> !(scan(c, toks, i, st) matches Ok((_, Some(_)))),
    decreases toks.len() - i,
{
    if i < 0 || i >= toks.len() {
    } else {
        match step(c, toks, i, st) {
            Step::Continue(st2, j) => {
                if j > i {
                    lemma_scan_result(c, toks, j, st2);
                }
            },
            _ => {},
        }
    }
}

/// The values given for option `k` (exec).
fn values_exec(vals: &Vec<(usize, String)>, k: usize) -> (r: Vec<String>)
    ensures
        Seq::new(r@.len(), |j: int| r@[j]@) == values_of(
            Seq::new(vals@.len(), |j: int| (vals@[j].0 as int, vals@[j].1@)), k as int),
{
    let ghost vv = Seq::new(vals@.len(), |j: int| (vals@[j].0 as int, vals@[j].1@));
    let mut r: Vec<String> = Vec::new();
    let mut j: usize = 0;
    while j < vals.len()
        invariant
            j <= vals.len(),
            vv == Seq::new(vals@.len(), |m: int| (vals@[m].0 as int, vals@[m].1@)),
            Seq::new(r@.len(), |m: int| r@[m]@) == values_of(vv.take(j as int), k as int),
        decreases vals.len() - j,
    {
        let ghost before = Seq::new(r@.len(), |m: int| r@[m]@);
        proof { assert(vv.take(j + 1).drop_last() =~= vv.take(j as int)); }
        if vals[j].0 == k {
            r.push(vals[j].1.clone());
            proof {
                assert(Seq::new(r@.len(), |m: int| r@[m]@) =~= before.push(vv[j as int].1));
            }
        } else {
            proof {
                assert(Seq::new(r@.len(), |m: int| r@[m]@) =~= before);
            }
        }
        j += 1;
    }
    proof { assert(vv.take(vals@.len() as int) =~= vv); }
    r
}

/// Option `k` was given.
pub open spec fn flag_of(st: ScanState, k: int) -> bool {
    values_of(st.vals, k).len() > 0
}

/// The value of option `k`, if given.
pub open spec fn single_of(st: ScanState, k: int) -> Option<Seq<char>> {
    if values_of(st.vals, k).len() > 0 { Some(values_of(st.vals, k)[0]) } else { None }
}

/// The value of option `k`, or `d` when it was not given.
pub open spec fn single_or(st: ScanState, k: int, d: Seq<char>) -> Seq<char> {
    if values_of(st.vals, k).len() > 0 { values_of(st.vals, k)[0] } else { d }
}

/// The positional value with number `n`, if given.
pub open spec fn pos_of(st: ScanState, n: int) -> Option<Seq<char>> {
    if 0 <= n < st.pos.len() { Some(st.pos[n]) } else { None }
}

fn flag_exec(st: &ScanExec, k: usize) -> (r: bool)
    ensures r == flag_of(st@, k as int),
{
    let v = values_exec(&st.vals, k);
    v.len() > 0
}

fn single_exec(st: &ScanExec, k: usize) -> (r: Option<String>)
    ensures
        match r {
            Some(s) => single_of(st@, k as int) == Some(s@),
            None => single_of(st@, k as int) is None,
        },
{
    let v = values_exec(&st.vals, k);
    if v.len() > 0 {
        let s = v[0].clone();
        proof { assert(Seq::new(v@.len(), |m: int| v@[m]@)[0] == v@[0]@); }
        Some(s)
    } else {
        None
    }
}

fn single_or_exec(st: &ScanExec, k: usize, d: &str) -> (r: String)
    ensures r@ == single_or(st@, k as int, d@),
{
    match single_exec(st, k) {
        Some(s) => s,
        None => owned(d),
    }
}

fn multi_exec(st: &ScanExec, k: usize) -> (r: Vec<String>)
    ensures Seq::new(r@.len(), |j: int| r@[j]@) == values_of(st@.vals, k as int),
{
    values_exec(&st.vals, k)
}

fn pos_exec(st: &ScanExec, n: usize) -> (r: Option<String>)
    ensures
        match r {
            Some(s) => pos_of(st@, n as int) == Some(s@),
            None => pos_of(st@, n as int) is None,
        },
{
    if n < st.pos.len() {
        Some(st.pos[n].clone())
    } else {
        None
    }
}

/// The action of `migrate`.
#[derive(Debug, Clone, PartialEq, Eq)]
pub enum MigrateAction {
    Apply,
    Status,
    OperationsApply,
    OperationsStatus,
    Verify,
    Lint,
    Diff { name: String },
}

/// A parsed management command.
#[derive(Debug, Clone, PartialEq, Eq)]
pub enum CommandKind {
    Startproject {
        name: String,
        out: String,
        che_rest_path: String,
        che_orm_path: String,
        with_auth: bool,
        force: bool,
    },
    Startapp { name: String, models: Vec<String>, root: Option<String>, force: bool },
    Schema,
    Makemigrations {
        app: Option<String>,
        name: Option<String>,
        dir: String,
        empty: bool,
        check: bool,
        dry_run: bool,
        merge: bool,
    },
    Migrate {
        action: Option<MigrateAction>,
        target: Vec<String>,
        plan: bool,
        config: String,
        dir: String,
    },
    Sqlmigrate { app: String, name: String },
    Showmigrations { app: Option<String>, config: String },
    Createsuperuser { username: String, password: String, config: String },
    GenerateTs { out: String, config: String },
    GenerateAdmin { out: String, config: String, force: bool },
}

/// The parsed command line of `manage`.
#[derive(Debug, Clone, PartialEq, Eq)]
pub struct Cli {
    pub command: CommandKind,
}

/// A migrate action as character sequences.
pub enum ActionView {
    Apply,
    Status,
    OperationsApply,
    OperationsStatus,
    Verify,
    Lint,
    Diff(Seq<char>),
}

/// A management command as character sequences.
pub enum CommandView {
    Startproject(Seq<char>, Seq<char>, Seq<char>, Seq<char>, bool, bool),
    Startapp(Seq<char>, Seq<Seq<char>>, Option<Seq<char>>, bool),
    Schema,
    Makemigrations(Option<Seq<char>>, Option<Seq<char>>, Seq<char>, bool, bool, bool, bool),
    Migrate(Option<ActionView>, Seq<Seq<char>>, bool, Seq<char>, Seq<char>),
    Sqlmigrate(Seq<char>, Seq<char>),
    Showmigrations(Option<Seq<char>>, Seq<char>),
    Createsuperuser(Seq<char>, Seq<char>, Seq<char>),
    GenerateTs(Seq<char>, Seq<char>),
    GenerateAdmin(Seq<char>, Seq<char>, bool),
}

pub open spec fn opt_view(o: Option<String>) -> Option<Seq<char>> {
    match o {
        Some(s) => Some(s@),
        None => None,
    }
}

pub open spec fn strings_view(v: Seq<String>) -> Seq<Seq<char>> {
    Seq::new(v.len(), |j: int| v[j]@)
}

impl MigrateAction {
    pub open spec fn view(&self) -> ActionView {
        match self {
            MigrateAction::Apply => ActionView::Apply,
            MigrateAction::Status => ActionView::Status,
            MigrateAction::OperationsApply => ActionView::OperationsApply,
            MigrateAction::OperationsStatus => ActionView::OperationsStatus,
            MigrateAction::Verify => ActionView::Verify,
            MigrateAction::Lint => ActionView::Lint,
            MigrateAction::Diff { name } => ActionView::Diff(name@),
        }
    }
}

impl CommandKind {
    pub open spec fn view(&self) -> CommandView {
        match self {
            CommandKind::Startproject { name, out, che_rest_path, che_orm_path, with_auth, force } =>
                CommandView::Startproject(name@, out@, che_rest_path@, che_orm_path@, *with_auth, *force),
            CommandKind::Startapp { name, models, root, force } =>
                CommandView::Startapp(name@, strings_view(models@), opt_view(*root), *force),
            CommandKind::Schema => CommandView::Schema,
            CommandKind::Makemigrations { app, name, dir, empty, check, dry_run, merge } =>
                CommandView::Makemigrations(opt_view(*app), opt_view(*name), dir@, *empty, *check, *dry_run, *merge),
            CommandKind::Migrate { action, target, plan, config, dir } =>
                CommandView::Migrate(
                    match action { Some(a) => Some(a@), None => None },
                    strings_view(target@), *plan, config@, dir@),
            CommandKind::Sqlmigrate { app, name } => CommandView::Sqlmigrate(app@, name@),
            CommandKind::Showmigrations { app, config } => CommandView::Showmigrations(opt_view(*app), config@),
            CommandKind::Createsuperuser { username, password, config } =>
                CommandView::Createsuperuser(username@, password@, config@),
            CommandKind::GenerateTs { out, config } => CommandView::GenerateTs(out@, config@),
            CommandKind::GenerateAdmin { out, config, force } => CommandView::GenerateAdmin(out@, config@, *force),
        }
    }
}

pub open spec fn grammar(longs: Seq<Seq<char>>, kinds: Seq<OptKind>, pos_limit: int, pos_required: int, subs: Seq<Seq<char>>) -> Grammar {
    Grammar { longs, kinds, pos_limit, pos_required, subs }
}

/// The grammar of each command level. Level 0 is `manage` itself, levels 1
/// to 10 its subcommands in the order of `top_subcommands`, level 11 a migrate
/// action without arguments and level 12 `migrate diff`.
pub open spec fn grammar_of(level: int) -> Grammar {
    if level == 0 {
        grammar(seq![], seq![], 0, 0, seq!["startproject"@, "startapp"@, "schema"@, "makemigrations"@, "migrate"@,
            "sqlmigrate"@, "showmigrations"@, "createsuperuser"@, "generate-ts"@, "generate-admin"@, "help"@])
    } else if level == 1 {
        grammar(seq!["out"@, "che-rest-path"@, "che-orm-path"@, "with-auth"@, "force"@],
            seq![OptKind::Single, OptKind::Single, OptKind::Single, OptKind::Flag, OptKind::Flag], 1, 1, seq![])
    } else if level == 2 {
        grammar(seq!["model"@, "root"@, "force"@], seq![OptKind::Multi, OptKind::Single, OptKind::Flag], 1, 1, seq![])
    } else if level == 4 {
        grammar(seq!["name"@, "dir"@, "empty"@, "check"@, "dry-run"@, "merge"@],
            seq![OptKind::Single, OptKind::Single, OptKind::Flag, OptKind::Flag, OptKind::Flag, OptKind::Flag], 1, 0, seq![])
    } else if level == 5 {
        grammar(seq!["plan"@, "config"@, "dir"@], seq![OptKind::Flag, OptKind::Single, OptKind::Single], 2, 0,
            seq!["apply"@, "status"@, "operations-apply"@, "operations-status"@, "verify"@, "lint"@, "diff"@, "help"@])
    } else if level == 6 {
        grammar(seq![], seq![], 2, 2, seq![])
    } else if level == 7 {
        grammar(seq!["config"@], seq![OptKind::Single], 1, 0, seq![])
    } else if level == 8 {
        grammar(seq!["username"@, "password"@, "config"@], seq![OptKind::Single, OptKind::Single, OptKind::Single], 0, 0, seq![])
    } else if level == 9 {
        grammar(seq!["out"@, "config"@], seq![OptKind::Single, OptKind::Single], 0, 0, seq![])
    } else if level == 10 {
        grammar(seq!["out"@, "config"@, "force"@], seq![OptKind::Single, OptKind::Single, OptKind::Flag], 0, 0, seq![])
    } else if level == 12 {
        grammar(seq![], seq![], 1, 1, seq![])
    } else {
        grammar(seq![], seq![], 0, 0, seq![])
    }
}

fn spec_of(level: usize) -> (c: CmdSpec)
    requires level <= 12,
    ensures c.wf(), c@ == grammar_of(level as int),
{
    let c = if level == 0 {
        CmdSpec { longs: vec![], kinds: vec![], pos_limit: 0, pos_required: 0,
            subs: vec!["startproject", "startapp", "schema", "makemigrations", "migrate", "sqlmigrate",
                "showmigrations", "createsuperuser", "generate-ts", "generate-admin", "help"] }
    } else if level == 1 {
        CmdSpec { longs: vec!["out", "che-rest-path", "che-orm-path", "with-auth", "force"],
            kinds: vec![OptKind::Single, OptKind::Single, OptKind::Single, OptKind::Flag, OptKind::Flag],
            pos_limit: 1, pos_required: 1, subs: vec![] }
    } else if level == 2 {
        CmdSpec { longs: vec!["model", "root", "force"], kinds: vec![OptKind::Multi, OptKind::Single, OptKind::Flag],
            pos_limit: 1, pos_required: 1, subs: vec![] }
    } else if level == 4 {
        CmdSpec { longs: vec!["name", "dir", "empty", "check", "dry-run", "merge"],
            kinds: vec![OptKind::Single, OptKind::Single, OptKind::Flag, OptKind::Flag, OptKind::Flag, OptKind::Flag],
            pos_limit: 1, pos_required: 0, subs: vec![] }
    } else if level == 5 {
        CmdSpec { longs: vec!["plan", "config", "dir"], kinds: vec![OptKind::Flag, OptKind::Single, OptKind::Single],
            pos_limit: 2, pos_required: 0,
            subs: vec!["apply", "status", "operations-apply", "operations-status", "verify", "lint", "diff", "help"] }
    } else if level == 6 {
        CmdSpec { longs: vec![], kinds: vec![], pos_limit: 2, pos_required: 2, subs: vec![] }
    } else if level == 7 {
        CmdSpec { longs: vec!["config"], kinds: vec![OptKind::Single], pos_limit: 1, pos_required: 0, subs: vec![] }
    } else if level == 8 {
        CmdSpec { longs: vec!["username", "password", "config"],
            kinds: vec![OptKind::Single, OptKind::Single, OptKind::Single], pos_limit: 0, pos_required: 0, subs: vec![] }
    } else if level == 9 {
        CmdSpec { longs: vec!["out", "config"], kinds: vec![OptKind::Single, OptKind::Single],
            pos_limit: 0, pos_required: 0, subs: vec![] }
    } else if level == 10 {
        CmdSpec { longs: vec!["out", "config", "force"], kinds: vec![OptKind::Single, OptKind::Single, OptKind::Flag],
            pos_limit: 0, pos_required: 0, subs: vec![] }
    } else if level == 12 {
        CmdSpec { longs: vec![], kinds: vec![], pos_limit: 1, pos_required: 1, subs: vec![] }
    } else {
        CmdSpec { longs: vec![], kinds: vec![], pos_limit: 0, pos_required: 0, subs: vec![] }
    };
    proof {
        assert(c@.longs =~= grammar_of(level as int).longs);
        assert(c@.kinds =~= grammar_of(level as int).kinds);
        assert(c@.subs =~= grammar_of(level as int).subs);
    }
    c
}

/// The migrate action named by subcommand `k`, read from position `j` on.
pub open spec fn action_of(toks: Seq<Seq<char>>, k: int, j: int) -> Result<ActionView, CliError> {
    if k == 7 {
        Err(CliError::HelpRequested)
    } else if k == 6 {
        match scan(grammar_of(12), toks, j, empty_state()) {
            Ok((st, _)) => Ok(ActionView::Diff(st.pos[0])),
            Err(e) => Err(e),
        }
    } else {
        match scan(grammar_of(11), toks, j, empty_state()) {
            Ok(_) => Ok(
                if k == 0 { ActionView::Apply } else if k == 1 { ActionView::Status }
                else if k == 2 { ActionView::OperationsApply } else if k == 3 { ActionView::OperationsStatus }
                else if k == 4 { ActionView::Verify } else { ActionView::Lint }),
            Err(e) => Err(e),
        }
    }
}

/// The command built from the options and positional values of level
/// `level` (1 to 10).
pub open spec fn build_command(level: int, st: ScanState, action: Option<ActionView>) -> Result<CommandView, CliError> {
    if level == 1 {
        Ok(CommandView::Startproject(st.pos[0], single_or(st, 0, "."@), single_or(st, 1, ""@),
            single_or(st, 2, ""@), flag_of(st, 3), flag_of(st, 4)))
    } else if level == 2 {
        Ok(CommandView::Startapp(st.pos[0], values_of(st.vals, 0), single_of(st, 1), flag_of(st, 2)))
    } else if level == 3 {
        Ok(CommandView::Schema)
    } else if level == 4 {
        if flag_of(st, 3) && flag_of(st, 2) {
            Err(CliError::Conflict("check", "empty"))
        } else if flag_of(st, 5) && flag_of(st, 2) {
            Err(CliError::Conflict("merge", "empty"))
        } else if flag_of(st, 5) && flag_of(st, 3) {
            Err(CliError::Conflict("merge", "check"))
        } else {
            Ok(CommandView::Makemigrations(pos_of(st, 0), single_of(st, 0), single_or(st, 1, "migrations"@),
                flag_of(st, 2), flag_of(st, 3), flag_of(st, 4), flag_of(st, 5)))
        }
    } else if level == 5 {
        Ok(CommandView::Migrate(action, st.pos, flag_of(st, 0), single_or(st, 1, "app.toml"@),
            single_or(st, 2, "migrations"@)))
    } else if level == 6 {
        Ok(CommandView::Sqlmigrate(st.pos[0], st.pos[1]))
    } else if level == 7 {
        Ok(CommandView::Showmigrations(pos_of(st, 0), single_or(st, 0, "app.toml"@)))
    } else if level == 8 {
        if single_of(st, 0) is None {
            Err(CliError::MissingOption("username"))
        } else if single_of(st, 1) is None {
            Err(CliError::MissingOption("password"))
        } else {
            Ok(CommandView::Createsuperuser(single_of(st, 0)->0, single_of(st, 1)->0, single_or(st, 2, "app.toml"@)))
        }
    } else if level == 9 {
        Ok(CommandView::GenerateTs(single_or(st, 0, "frontend/client/src/generated"@), single_or(st, 1, "app.toml"@)))
    } else {
        Ok(CommandView::GenerateAdmin(single_or(st, 0, "frontend/admin"@), single_or(st, 1, "app.toml"@), flag_of(st, 2)))
    }
}

/// The command given by subcommand `k` of `manage`, read from position `j` on.
pub open spec fn command_of(toks: Seq<Seq<char>>, k: int, j: int) -> Result<CommandView, CliError> {
    match scan(grammar_of(k + 1), toks, j, empty_state()) {
        Err(e) => Err(e),
        Ok((st, None)) => build_command(k + 1, st, None),
        Ok((st, Some((a, aj)))) => match action_of(toks, a, aj) {
            Err(e) => Err(e),
            Ok(action) => build_command(k + 1, st, Some(action)),
        },
    }
}

/// What a command line (program name first) parses to.
pub open spec fn parse_args(toks: Seq<Seq<char>>) -> Result<CommandView, CliError> {
    match scan(grammar_of(0), toks, 1, empty_state()) {
        Err(CliError::UnexpectedPositional(i)) => Err(CliError::UnknownSubcommand(i)),
        Err(e) => Err(e),
        Ok((_, None)) => Err(CliError::MissingSubcommand),
        Ok((_, Some((k, j)))) => if k == 10 { Err(CliError::HelpRequested) } else { command_of(toks, k, j) },
    }
}

fn parse_action(args: &[&str], k: usize, j: usize) -> (r: Result<MigrateAction, CliError>)
    requires k < 8,
    ensures
        match (r, action_of(args_view(args@), k as int, j as int)) {
            (Ok(a), Ok(b)) => a@ == b,
            (Err(e), Err(e2)) => e == e2,
            _ => false,
        },
{
    if k == 7 {
        return Err(CliError::HelpRequested);
    }
    if k == 6 {
        let c = spec_of(12);
        match scan_exec(&c, args, j) {
            Err(e) => Err(e),
            Ok((st, _)) => {
                proof { lemma_scan_result(grammar_of(12), args_view(args@), j as int, empty_state()); }
                let name = st.pos[0].clone();
                Ok(MigrateAction::Diff { name })
            },
        }
    } else {
        let c = spec_of(11);
        match scan_exec(&c, args, j) {
            Err(e) => Err(e),
            Ok(_) => Ok(
                if k == 0 { MigrateAction::Apply } else if k == 1 { MigrateAction::Status }
                else if k == 2 { MigrateAction::OperationsApply } else if k == 3 { MigrateAction::OperationsStatus }
                else if k == 4 { MigrateAction::Verify } else { MigrateAction::Lint }),
        }
    }
}

fn build_exec(level: usize, st: &ScanExec, action: Option<MigrateAction>) -> (r: Result<CommandKind, CliError>)
    requires
        1 <= level <= 10,
        st@.pos.len() >= grammar_of(level as int).pos_required,
    ensures
        match (r, build_command(level as int, st@, match action { Some(a) => Some(a@), None => None })) {
            (Ok(c), Ok(v)) => c@ == v,
            (Err(e), Err(e2)) => e == e2,
            _ => false,
        },
{
    if level == 1 {
        Ok(CommandKind::Startproject {
            name: st.pos[0].clone(),
            out: single_or_exec(st, 0, "."),
            che_rest_path: single_or_exec(st, 1, ""),
            che_orm_path: single_or_exec(st, 2, ""),
            with_auth: flag_exec(st, 3),
            force: flag_exec(st, 4),
        })
    } else if level == 2 {
        let models = multi_exec(st, 0);
        let r = CommandKind::Startapp {
            name: st.pos[0].clone(),
            models,
            root: single_exec(st, 1),
            force: flag_exec(st, 2),
        };
        proof {
            assert(strings_view(models@) =~= Seq::new(models@.len(), |j: int| models@[j]@));
        }
        Ok(r)
    } else if level == 3 {
        Ok(CommandKind::Schema)
    } else if level == 4 {
        let empty = flag_exec(st, 2);
        let check = flag_exec(st, 3);
        let merge = flag_exec(st, 5);
        if check && empty {
            return Err(CliError::Conflict("check", "empty"));
        }
        if merge && empty {
            return Err(CliError::Conflict("merge", "empty"));
        }
        if merge && check {
            return Err(CliError::Conflict("merge", "check"));
        }
        Ok(CommandKind::Makemigrations {
            app: pos_exec(st, 0),
            name: single_exec(st, 0),
            dir: single_or_exec(st, 1, "migrations"),
            empty,
            check,
            dry_run: flag_exec(st, 4),
            merge,
        })
    } else if level == 5 {
        let target = clone_strings(&st.pos);
        let r = CommandKind::Migrate {
            action,
            target,
            plan: flag_exec(st, 0),
            config: single_or_exec(st, 1, "app.toml"),
            dir: single_or_exec(st, 2, "migrations"),
        };
        proof { assert(strings_view(target@) =~= st@.pos); }
        Ok(r)
    } else if level == 6 {
        Ok(CommandKind::Sqlmigrate { app: st.pos[0].clone(), name: st.pos[1].clone() })
    } else if level == 7 {
        Ok(CommandKind::Showmigrations { app: pos_exec(st, 0), config: single_or_exec(st, 0, "app.toml") })
    } else if level == 8 {
        let username = single_exec(st, 0);
        let password = single_exec(st, 1);
        match (username, password) {
            (None, _) => Err(CliError::MissingOption("username")),
            (Some(_), None) => Err(CliError::MissingOption("password")),
            (Some(u), Some(p)) => Ok(CommandKind::Createsuperuser {
                username: u,
                password: p,
                config: single_or_exec(st, 2, "app.toml"),
            }),
        }
    } else if level == 9 {
        Ok(CommandKind::GenerateTs {
            out: single_or_exec(st, 0, "frontend/client/src/generated"),
            config: single_or_exec(st, 1, "app.toml"),
        })
    } else {
        Ok(CommandKind::GenerateAdmin {
            out: single_or_exec(st, 0, "frontend/admin"),
            config: single_or_exec(st, 1, "app.toml"),
            force: flag_exec(st, 2),
        })
    }
}

fn clone_strings(v: &Vec<String>) -> (r: Vec<String>)
    ensures strings_view(r@) == Seq::new(v@.len(), |j: int| v@[j]@),
{
    let mut r: Vec<String> = Vec::new();
    let mut i: usize = 0;
    while i < v.len()
        invariant
            i <= v.len(),
            r@.len() == i,
            forall|j: int| 0 <= j < i ==> r@[j]@ == v@[j]@,
        decreases v.len() - i,
    {
        r.push(v[i].clone());
        i += 1;
    }
    proof { assert(strings_view(r@) =~= Seq::new(v@.len(), |j: int| v@[j]@)); }
    r
}

impl Cli {
    /// Parses a `manage` command line; `args[0]` is the program name.
    pub fn try_parse_from(args: &[&str]) -> (r: Result<Cli, CliError>)
        ensures
            match (r, parse_args(args_view(args@))) {
                (Ok(cli), Ok(v)) => cli.command@ == v,
                (Err(e), Err(e2)) => e == e2,
                _ => false,
            },
    {
        let top = spec_of(0);
        let found = scan_exec(&top, args, 1);
        match found {
            Err(CliError::UnexpectedPositional(i)) => Err(CliError::UnknownSubcommand(i)),
            Err(e) => Err(e),
            Ok((_, None)) => Err(CliError::MissingSubcommand),
            Ok((_, Some((k, j)))) => {
                if k == 10 {
                    return Err(CliError::HelpRequested);
                }
                let c = spec_of(k + 1);
                match scan_exec(&c, args, j) {
                    Err(e) => Err(e),
                    Ok((st, None)) => {
                        proof { lemma_scan_result(grammar_of(k + 1), args_view(args@), j as int, empty_state()); }
                        let command = build_exec(k + 1, &st, None)?;
                        Ok(Cli { command })
                    },
                    Ok((st, Some((a, aj)))) => {
                        proof { assert(k + 1 == 5); }
                        let action = parse_action(args, a, aj)?;
                        let command = build_exec(k + 1, &st, Some(action))?;
                        Ok(Cli { command })
                    },
                }
            },
        }
    }
}

/// Law: `manage sqlmigrate A N`, with neither `A` nor `N` read as an
/// option, is the `sqlmigrate` command of app `A` and migration `N`, in
/// that order.
pub proof fn law_sqlmigrate_reads_app_then_name(program: Seq<char>, app: Seq<char>, name: Seq<char>)
    requires !option_like(app), !option_like(name),
    ensures
        parse_args(seq![program, "sqlmigrate"@, app, name]) == Ok::<CommandView, CliError>(CommandView::Sqlmigrate(app, name)),
{
    let toks = seq![program, "sqlmigrate"@, app, name];
    reveal_strlit("sqlmigrate");
    reveal_strlit("startproject");
    reveal_strlit("startapp");
    reveal_strlit("schema");
    reveal_strlit("makemigrations");
    reveal_strlit("migrate");
    let top = grammar_of(0);
    let subs = top.subs;
    assert(subs[5] == "sqlmigrate"@);
    assert(find_name(subs, "sqlmigrate"@, 5) == 5);
    assert(find_name(subs, "sqlmigrate"@, 4) == 5);
    assert(find_name(subs, "sqlmigrate"@, 3) == 5);
    assert(find_name(subs, "sqlmigrate"@, 2) == 5);
    assert(find_name(subs, "sqlmigrate"@, 1) == 5);
    assert(find_name(subs, "sqlmigrate"@, 0) == 5);
    assert(toks[1] == "sqlmigrate"@);
    assert(!option_like(toks[1]));
    assert(toks[1] != dd() && toks[1] != help_long() && toks[1] != help_short());
    assert(step(top, toks, 1, empty_state()) == Step::Sub(empty_state(), 5, 2));
    assert(scan(top, toks, 1, empty_state()) == Ok::<(ScanState, Option<(int, int)>), CliError>((empty_state(), Some((5, 2)))));
    let g = grammar_of(6);
    assert(toks[2] == app && toks[3] == name);
    assert(app != dd() && app != help_long() && app != help_short());
    assert(name != dd() && name != help_long() && name != help_short());
    assert(find_name(g.subs, app, 0) == -1);
    assert(find_name(g.subs, name, 0) == -1);
    let s1 = ScanState { pos: seq![app], ..empty_state() };
    let s2 = ScanState { pos: seq![app, name], ..empty_state() };
    assert(step(g, toks, 2, empty_state()) == Step::Continue(s1, 3));
    assert(empty_state().pos.push(app) =~= seq![app]);
    assert(s1.pos.push(name) =~= seq![app, name]);
    assert(step(g, toks, 3, s1) == Step::Continue(s2, 4));
    assert(scan(g, toks, 4, s2) == finish(g, s2));
    assert(scan(g, toks, 3, s1) == scan(g, toks, 4, s2));
    assert(scan(g, toks, 2, empty_state()) == scan(g, toks, 3, s1));
    assert(command_of(toks, 5, 2) == build_command(6, s2, None));
}

} // verus!
