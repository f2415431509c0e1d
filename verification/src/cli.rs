use vstd::prelude::*;

verus! {

/// The value of the decimal digits `s`.
pub open spec fn digits_value(s: Seq<char>) -> nat
    decreases s.len(),
{
    if s.len() == 0 {
        0
    } else {
        digits_value(s.drop_last()) * 10 + ((s.last() as u32) - ('0' as u32)) as nat
    }
}

/// Every character of `s` is a decimal digit.
pub open spec fn all_digits(s: Seq<char>) -> bool {
    forall|i: int| 0 <= i < s.len() ==> '0' <= #[trigger] s[i] <= '9'
}

/// `s` read as an unsigned 64-bit decimal, as `str::parse::<u64>` reads it: an optional `+`,
/// then at least one digit and nothing else, and a value that fits.
pub open spec fn parse_u64(s: Seq<char>) -> Option<u64> {
    let body = if s.len() > 0 && s[0] == '+' {
        s.drop_first()
    } else {
        s
    };
    if body.len() == 0 || !all_digits(body) || digits_value(body) > u64::MAX {
        None
    } else {
        Some(digits_value(body) as u64)
    }
}

/// Reading decimals digit by digit: a single digit reads as its value, and one more digit after
/// a readable number multiplies it by ten and adds the digit, as long as the result fits; a
/// leading `+` changes nothing, and any other character makes the text unreadable.
pub proof fn lemma_parse_u64_digits(s: Seq<char>, d: char)
    requires
        '0' <= d <= '9',
    ensures
        parse_u64(seq![d]) == Some((d as u32 - '0' as u32) as u64),
        s.len() > 0 && s[0] != '+' && parse_u64(s) is Some ==> parse_u64(s.push(d)) == (if parse_u64(
            s,
        ).unwrap() * 10 + (d as u32 - '0' as u32) <= u64::MAX {
            Some((parse_u64(s).unwrap() * 10 + (d as u32 - '0' as u32)) as u64)
        } else {
            None::<u64>
        }),
        (s.len() == 0 || s[0] != '+') ==> parse_u64(seq!['+'] + s) == parse_u64(s),
        (exists|i: int| 0 <= i < s.len() && #[trigger] s[i] != '+' && !('0' <= s[i] <= '9'))
            ==> parse_u64(s) is None,
{
    assert(seq![d].drop_last() =~= Seq::<char>::empty());
    assert(seq![d].last() == d);
    assert(seq![d].len() == 1);
    assert(digits_value(seq![d].drop_last()) == 0);
    assert((d as u32) >= ('0' as u32));
    assert(all_digits(seq![d]));
    assert(digits_value(seq![d]) == (d as u32 - '0' as u32));
    assert((seq!['+'] + s).drop_first() =~= s);
    if s.len() > 0 && s[0] != '+' && parse_u64(s) is Some {
        assert(s.push(d).drop_last() =~= s);
        assert(all_digits(s.push(d))) by {
            assert forall|i: int| 0 <= i < s.push(d).len() implies '0' <= #[trigger] s.push(d)[i]
                <= '9' by {
                if i < s.len() {
                    assert(s.push(d)[i] == s[i]);
                }
            }
        }
    }
    if exists|i: int| 0 <= i < s.len() && #[trigger] s[i] != '+' && !('0' <= s[i] <= '9') {
        let i = choose|i: int| 0 <= i < s.len() && #[trigger] s[i] != '+' && !('0' <= s[i] <= '9');
        if s.len() > 0 && s[0] == '+' {
            assert(s.drop_first()[i - 1] == s[i]);
        }
    }
}

/// An option that takes a value.
#[derive(Copy, Clone, PartialEq, Eq, Structural, Debug)]
pub enum Flag {
    Scenario,
    Seed,
    Out,
    Speed,
}

/// Why the command line was refused.
#[derive(Clone, Debug)]
pub enum ArgError<S> {
    /// The option was last, with no value after it.
    NeedsValue(Flag),
    /// The value of `--seed` is not an unsigned 64-bit integer.
    SeedNotInteger,
    /// An argument that is no option.
    Unknown(S),
}

/// One thing the command line asks for, in the order it asks.
#[derive(Clone, Debug)]
pub enum ArgStep<S> {
    /// `--list`: list the scenarios and stop.
    List,
    Scenario(S),
    Seed(u64),
    Out(S),
    Plot,
    /// `--realtime`: pace the run at real time.
    Realtime,
    /// `--speed`: the pace, as its text.
    Speed(S),
    Live,
    /// The command line is refused here.
    Fail(ArgError<S>),
}

impl ArgStep<Vec<char>> {
    /// The step with its text as character sequences.
    pub open spec fn view_step(&self) -> ArgStep<Seq<char>> {
        match self {
            ArgStep::List => ArgStep::List,
            ArgStep::Scenario(v) => ArgStep::Scenario(v@),
            ArgStep::Seed(n) => ArgStep::Seed(*n),
            ArgStep::Out(v) => ArgStep::Out(v@),
            ArgStep::Plot => ArgStep::Plot,
            ArgStep::Realtime => ArgStep::Realtime,
            ArgStep::Speed(v) => ArgStep::Speed(v@),
            ArgStep::Live => ArgStep::Live,
            ArgStep::Fail(ArgError::NeedsValue(f)) => ArgStep::Fail(ArgError::NeedsValue(*f)),
            ArgStep::Fail(ArgError::SeedNotInteger) => ArgStep::Fail(ArgError::SeedNotInteger),
            ArgStep::Fail(ArgError::Unknown(v)) => ArgStep::Fail(ArgError::Unknown(v@)),
        }
    }
}

pub open spec fn opt_list() -> Seq<char> {
    seq!['-', '-', 'l', 'i', 's', 't']
}

pub open spec fn opt_scenario() -> Seq<char> {
    seq!['-', '-', 's', 'c', 'e', 'n', 'a', 'r', 'i', 'o']
}

pub open spec fn opt_seed() -> Seq<char> {
    seq!['-', '-', 's', 'e', 'e', 'd']
}

pub open spec fn opt_out() -> Seq<char> {
    seq!['-', '-', 'o', 'u', 't']
}

pub open spec fn opt_plot() -> Seq<char> {
    seq!['-', '-', 'p', 'l', 'o', 't']
}

pub open spec fn opt_realtime() -> Seq<char> {
    seq!['-', '-', 'r', 'e', 'a', 'l', 't', 'i', 'm', 'e']
}

pub open spec fn opt_speed() -> Seq<char> {
    seq!['-', '-', 's', 'p', 'e', 'e', 'd']
}

pub open spec fn opt_live() -> Seq<char> {
    seq!['-', '-', 'l', 'i', 'v', 'e']
}

/// The option that takes a value, if `k` names one.
pub open spec fn valued_flag(k: Seq<char>) -> Option<Flag> {
    if k == opt_scenario() {
        Some(Flag::Scenario)
    } else if k == opt_seed() {
        Some(Flag::Seed)
    } else if k == opt_out() {
        Some(Flag::Out)
    } else if k == opt_speed() {
        Some(Flag::Speed)
    } else {
        None
    }
}

/// What the command line `args` asks for, read left to right. Reading stops after `--list` and
/// at the first refusal.
pub open spec fn arg_steps(args: Seq<Seq<char>>) -> Seq<ArgStep<Seq<char>>>
    decreases args.len(),
{
    if args.len() == 0 {
        Seq::empty()
    } else {
        let k = args[0];
        if k == opt_list() {
            seq![ArgStep::List]
        } else if k == opt_plot() {
            seq![ArgStep::Plot] + arg_steps(args.drop_first())
        } else if k == opt_realtime() {
            seq![ArgStep::Realtime] + arg_steps(args.drop_first())
        } else if k == opt_live() {
            seq![ArgStep::Live] + arg_steps(args.drop_first())
        } else if let Some(f) = valued_flag(k) {
            if args.len() < 2 {
                seq![ArgStep::Fail(ArgError::NeedsValue(f))]
            } else {
                let v = args[1];
                let rest = arg_steps(args.skip(2));
                match f {
                    Flag::Scenario => seq![ArgStep::Scenario(v)] + rest,
                    Flag::Out => seq![ArgStep::Out(v)] + rest,
                    Flag::Speed => seq![ArgStep::Speed(v)] + rest,
                    Flag::Seed => match parse_u64(v) {
                        Some(n) => seq![ArgStep::Seed(n)] + rest,
                        None => seq![ArgStep::Fail(ArgError::SeedNotInteger)],
                    },
                }
            }
        } else {
            seq![ArgStep::Fail(ArgError::Unknown(k))]
        }
    }
}

/// Whether reading the command line ends at this step: `--list`, or a refusal.
pub open spec fn stops_reading<S>(step: ArgStep<S>) -> bool {
    step is List || step is Fail
}

/// The step a valued option `f` with value `v` asks for, when `v` is acceptable.
pub open spec fn valued_step(f: Flag, v: Seq<char>) -> ArgStep<Seq<char>> {
    match f {
        Flag::Scenario => ArgStep::Scenario(v),
        Flag::Seed => ArgStep::Seed(parse_u64(v).unwrap()),
        Flag::Out => ArgStep::Out(v),
        Flag::Speed => ArgStep::Speed(v),
    }
}

/// Reading a command line goes on after every step that does not end it: when nothing read from
/// `a` ends the reading, reading `a` followed by `b` gives the steps of `a` followed by those of
/// `b`.
pub proof fn lemma_reading_composes(a: Seq<Seq<char>>, b: Seq<Seq<char>>)
    requires
        forall|i: int| 0 <= i < arg_steps(a).len() ==> !stops_reading(#[trigger] arg_steps(a)[i]),
    ensures
        arg_steps(a + b) == arg_steps(a) + arg_steps(b),
    decreases a.len(),
{
    let ab = a + b;
    if a.len() == 0 {
        assert(ab =~= b);
        assert(arg_steps(a) + arg_steps(b) =~= arg_steps(b));
    } else {
        assert(ab[0] == a[0]);
        let k = a[0];
        if k == opt_list() {
            assert(stops_reading(arg_steps(a)[0]));
        } else if k == opt_plot() || k == opt_realtime() || k == opt_live() {
            let t = a.drop_first();
            assert(ab.drop_first() =~= t + b);
            assert forall|i: int| 0 <= i < arg_steps(t).len() implies !stops_reading(
                #[trigger] arg_steps(t)[i],
            ) by {
                assert(arg_steps(t)[i] == arg_steps(a)[i + 1]);
            }
            lemma_reading_composes(t, b);
            assert(arg_steps(ab) =~= arg_steps(a) + arg_steps(b));
        } else if valued_flag(k) is Some {
            if a.len() < 2 {
                assert(stops_reading(arg_steps(a)[0]));
            } else if valued_flag(k) == Some(Flag::Seed) && parse_u64(a[1]) is None {
                assert(stops_reading(arg_steps(a)[0]));
            } else {
                assert(ab[1] == a[1]);
                let t = a.skip(2);
                assert(ab.skip(2) =~= t + b);
                assert forall|i: int| 0 <= i < arg_steps(t).len() implies !stops_reading(
                    #[trigger] arg_steps(t)[i],
                ) by {
                    assert(arg_steps(t)[i] == arg_steps(a)[i + 1]);
                }
                lemma_reading_composes(t, b);
                assert(arg_steps(ab) =~= arg_steps(a) + arg_steps(b));
            }
        } else {
            assert(stops_reading(arg_steps(a)[0]));
        }
    }
}

/// An option with an acceptable value is read as one step carrying that value, and reading goes
/// on with what follows: the steps of `k v rest` are the option's step and then the steps of
/// `rest`. Only `--list`, a missing value, a `--seed` that is no integer, and an unknown argument
/// end the reading.
pub proof fn lemma_valued_option_continues(k: Seq<char>, v: Seq<char>, rest: Seq<Seq<char>>)
    requires
        valued_flag(k) is Some,
        valued_flag(k) == Some(Flag::Seed) ==> parse_u64(v) is Some,
    ensures
        arg_steps(seq![k, v] + rest) == seq![valued_step(valued_flag(k).unwrap(), v)] + arg_steps(
            rest,
        ),
        !stops_reading(valued_step(valued_flag(k).unwrap(), v)),
{
    let a = seq![k, v] + rest;
    assert(a[0] == k && a[1] == v);
    assert(a.skip(2) =~= rest);
}

/// Reading ends only at its last step: every step before the last one lets reading go on.
pub proof fn lemma_only_last_step_stops(a: Seq<Seq<char>>)
    ensures
        forall|i: int| 0 <= i < arg_steps(a).len() - 1 ==> !stops_reading(#[trigger] arg_steps(a)[i]),
    decreases a.len(),
{
    if a.len() > 0 {
        let k = a[0];
        if k == opt_plot() || k == opt_realtime() || k == opt_live() {
            let t = a.drop_first();
            lemma_only_last_step_stops(t);
            assert forall|i: int| 0 <= i < arg_steps(a).len() - 1 implies !stops_reading(
                #[trigger] arg_steps(a)[i],
            ) by {
                if i > 0 {
                    assert(arg_steps(a)[i] == arg_steps(t)[i - 1]);
                }
            }
        } else if k != opt_list() && valued_flag(k) is Some && a.len() >= 2 && !(valued_flag(k)
            == Some(Flag::Seed) && parse_u64(a[1]) is None) {
            let t = a.skip(2);
            lemma_only_last_step_stops(t);
            assert forall|i: int| 0 <= i < arg_steps(a).len() - 1 implies !stops_reading(
                #[trigger] arg_steps(a)[i],
            ) by {
                if i > 0 {
                    assert(arg_steps(a)[i] == arg_steps(t)[i - 1]);
                }
            }
        }
    }
}

fn chars_eq(a: &Vec<char>, b: &[char]) -> (r: bool)
    ensures
        r == (a@ == b@),
{
    if a.len() != b.len() {
        return false;
    }
    let n = a.len();
    let mut i: usize = 0;
    while i < n
        invariant
            n == a@.len(),
            n == b@.len(),
            i <= n,
            forall|j: int| 0 <= j < i ==> a@[j] == b@[j],
        decreases n - i,
    {
        if a[i] != b[i] {
            return false;
        }
        i = i + 1;
    }
    assert(a@ =~= b@);
    true
}

proof fn lemma_digits_grow(s: Seq<char>, i: int, j: int)
    requires
        0 <= i <= j <= s.len(),
        all_digits(s),
    ensures
        digits_value(s.take(i)) <= digits_value(s.take(j)),
    decreases j - i,
{
    if i < j {
        lemma_digits_grow(s, i, j - 1);
        assert(s.take(j).drop_last() =~= s.take(j - 1));
    }
}

proof fn lemma_parse_none(s: Seq<char>, body: Seq<char>)
    requires
        body == (if s.len() > 0 && s[0] == '+' {
            s.drop_first()
        } else {
            s
        }),
        body.len() == 0 || !all_digits(body) || digits_value(body) > u64::MAX,
    ensures
        parse_u64(s) is None,
{
}

/// Reads `s` as `str::parse::<u64>` does.
pub fn read_u64(s: &Vec<char>) -> (r: Option<u64>)
    ensures
        r == parse_u64(s@),
{
    let n = s.len();
    let start: usize = if n > 0 && s[0] == '+' {
        1
    } else {
        0
    };
    let ghost body = if s@.len() > 0 && s@[0] == '+' {
        s@.drop_first()
    } else {
        s@
    };
    assert(body =~= s@.skip(start as int));
    if start == n {
        return None;
    }
    let mut acc: u64 = 0;
    let mut i: usize = start;
    while i < n
        invariant
            start <= i <= n,
            n == s@.len(),
            body == s@.skip(start as int),
            body == (if s@.len() > 0 && s@[0] == '+' {
                s@.drop_first()
            } else {
                s@
            }),
            forall|j: int| 0 <= j < i - start ==> '0' <= #[trigger] body[j] <= '9',
            acc == digits_value(body.take(i - start)),
        decreases n - i,
    {
        let c = s[i];
        if c < '0' || c > '9' {
            proof {
                assert(body[i - start] == c);
                assert(!('0' <= body[i - start] <= '9'));
                assert(!all_digits(body));
                lemma_parse_none(s@, body);
            }
            return None;
        }
        let d = (c as u32) - ('0' as u32);
        proof {
            assert(body.take(i - start + 1).drop_last() =~= body.take(i - start));
            assert(body.take(i - start + 1).last() == c);
        }
        if acc > (u64::MAX - (d as u64)) / 10 {
            proof {
                assert(acc * 10 + d > u64::MAX) by (nonlinear_arith)
                    requires
                        acc > (u64::MAX - (d as u64)) / 10,
                        d <= 9,
                ;
                assert(digits_value(body.take(i - start + 1)) > u64::MAX);
                if all_digits(body) {
                    lemma_digits_grow(body, i - start + 1, body.len() as int);
                    assert(body.take(body.len() as int) =~= body);
                }
                lemma_parse_none(s@, body);
            }
            return None;
        }
        acc = acc * 10 + (d as u64);
        i = i + 1;
    }
    proof {
        assert(body.take(body.len() as int) =~= body);
    }
    Some(acc)
}

/// What the command line `args` asks for, in order; the last step is a refusal or `--list` if
/// reading stopped early.
pub fn read_args(args: &Vec<Vec<char>>) -> (steps: Vec<ArgStep<Vec<char>>>)
    ensures
        steps@.map_values(|s: ArgStep<Vec<char>>| s.view_step()) == arg_steps(
            args@.map_values(|a: Vec<char>| a@),
        ),
{
    let ghost all = args@.map_values(|a: Vec<char>| a@);
    let mut steps: Vec<ArgStep<Vec<char>>> = Vec::new();
    let n = args.len();
    let mut i: usize = 0;
    proof {
        assert(all.skip(0) =~= all);
        assert(steps@.map_values(|s: ArgStep<Vec<char>>| s.view_step()) + arg_steps(all)
            =~= arg_steps(all));
    }
    while i < n
        invariant
            n == args@.len(),
            i <= n,
            all == args@.map_values(|a: Vec<char>| a@),
            steps@.map_values(|s: ArgStep<Vec<char>>| s.view_step()) + arg_steps(all.skip(i as int))
                == arg_steps(all),
        decreases n - i,
    {
        let ghost before = steps@.map_values(|s: ArgStep<Vec<char>>| s.view_step());
        let ghost rest = all.skip(i as int);
        assert(rest[0] == args@[i as int]@);
        assert(rest.drop_first() =~= all.skip(i + 1));
        let k = &args[i];
        let step: ArgStep<Vec<char>>;
        let used: usize;
        let stop: bool;
        if chars_eq(k, &['-', '-', 'l', 'i', 's', 't']) {
            step = ArgStep::List;
            used = 1;
            stop = true;
        } else if chars_eq(k, &['-', '-', 'p', 'l', 'o', 't']) {
            step = ArgStep::Plot;
            used = 1;
            stop = false;
        } else if chars_eq(k, &['-', '-', 'r', 'e', 'a', 'l', 't', 'i', 'm', 'e']) {
            step = ArgStep::Realtime;
            used = 1;
            stop = false;
        } else if chars_eq(k, &['-', '-', 'l', 'i', 'v', 'e']) {
            step = ArgStep::Live;
            used = 1;
            stop = false;
        } else {
            let flag = if chars_eq(k, &['-', '-', 's', 'c', 'e', 'n', 'a', 'r', 'i', 'o']) {
                Some(Flag::Scenario)
            } else if chars_eq(k, &['-', '-', 's', 'e', 'e', 'd']) {
                Some(Flag::Seed)
            } else if chars_eq(k, &['-', '-', 'o', 'u', 't']) {
                Some(Flag::Out)
            } else if chars_eq(k, &['-', '-', 's', 'p', 'e', 'e', 'd']) {
                Some(Flag::Speed)
            } else {
                None
            };
            assert(flag == valued_flag(rest[0]));
            match flag {
                None => {
                    step = ArgStep::Fail(ArgError::Unknown(k.clone()));
                    used = 1;
                    stop = true;
                },
                Some(f) => {
                    if i + 1 >= n {
                        step = ArgStep::Fail(ArgError::NeedsValue(f));
                        used = 1;
                        stop = true;
                    } else {
                        let v = args[i + 1].clone();
                        proof {
                            assert(rest[1] == args@[i + 1]@);
                            assert(rest.skip(2) =~= all.skip(i + 2));
                        }
                        used = 2;
                        match f {
                            Flag::Scenario => {
                                step = ArgStep::Scenario(v);
                                stop = false;
                            },
                            Flag::Out => {
                                step = ArgStep::Out(v);
                                stop = false;
                            },
                            Flag::Speed => {
                                step = ArgStep::Speed(v);
                                stop = false;
                            },
                            Flag::Seed => {
                                match read_u64(&v) {
                                    Some(x) => {
                                        step = ArgStep::Seed(x);
                                        stop = false;
                                    },
                                    None => {
                                        step = ArgStep::Fail(ArgError::SeedNotInteger);
                                        stop = true;
                                    },
                                }
                            },
                        }
                    }
                },
            }
        }
        proof {
            let sv = step.view_step();
            if stop {
                assert(arg_steps(rest) =~= seq![sv]);
            } else {
                assert(arg_steps(rest) =~= seq![sv] + arg_steps(all.skip(i + used)));
            }
        }
        steps.push(step);
        proof {
            let after = steps@.map_values(|s: ArgStep<Vec<char>>| s.view_step());
            assert(after =~= before.push(step.view_step()));
            if stop {
                assert(after =~= before + arg_steps(rest));
            } else {
                assert(after + arg_steps(all.skip(i + used)) =~= before + arg_steps(rest));
            }
        }
        if stop {
            return steps;
        }
        i = i + used;
    }
    proof {
        assert(all.skip(n as int) =~= Seq::<Seq<char>>::empty());
        let v = steps@.map_values(|s: ArgStep<Vec<char>>| s.view_step());
        assert(v + Seq::<ArgStep<Seq<char>>>::empty() =~= v);
    }
    steps
}

} // verus!
