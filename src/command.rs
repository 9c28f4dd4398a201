//! One benchmark unit: a display name, a command template and the parameter
//! bindings that fill its `{name}` placeholders.
use vstd::prelude::*;
use vstd::string::{StrSliceExecFns, StringExecFns};

use crate::text::char_at;

verus! {

/// The value bound to a parameter: a textual token of a parameter list, or
/// a number of a parameter scan, kept in its textual form.
#[derive(Debug, PartialEq, Eq)]
pub enum ParameterValue {
    Text(String),
    Numeric(String),
}

/// What a `ParameterValue` holds.
pub enum ValueView {
    Text(Seq<char>),
    Numeric(Seq<char>),
}

impl View for ParameterValue {
    type V = ValueView;

    open spec fn view(&self) -> ValueView {
        match self {
            ParameterValue::Text(s) => ValueView::Text(s@),
            ParameterValue::Numeric(s) => ValueView::Numeric(s@),
        }
    }
}

/// The text that a value puts in place of a placeholder.
pub open spec fn text_of(v: ValueView) -> Seq<char> {
    match v {
        ValueView::Text(s) => s,
        ValueView::Numeric(s) => s,
    }
}

impl ParameterValue {
    /// The text that this value puts in place of a placeholder.
    pub fn as_text(&self) -> (r: &str)
        ensures
            r@ == text_of(self@),
    {
        match self {
            ParameterValue::Text(s) => s.as_str(),
            ParameterValue::Numeric(s) => s.as_str(),
        }
    }

    /// A copy of this value.
    pub fn duplicate(&self) -> (r: ParameterValue)
        ensures
            r@ == self@,
    {
        match self {
            ParameterValue::Text(s) => ParameterValue::Text(s.clone()),
            ParameterValue::Numeric(s) => ParameterValue::Numeric(s.clone()),
        }
    }
}

/// Parameter bindings as the views of their names and values.
pub open spec fn bindings_view(v: Seq<(String, ParameterValue)>) -> Seq<(Seq<char>, ValueView)> {
    v.map_values(|p: (String, ParameterValue)| (p.0@, p.1@))
}

/// Parameter bindings as names and the texts that replace them.
pub open spec fn replacements(v: Seq<(Seq<char>, ValueView)>) -> Seq<(Seq<char>, Seq<char>)> {
    v.map_values(|p: (Seq<char>, ValueView)| (p.0, text_of(p.1)))
}

/// The placeholder `{name}`.
pub open spec fn placeholder(name: Seq<char>) -> Seq<char> {
    seq!['{'] + name + seq!['}']
}

pub open spec fn starts_with(s: Seq<char>, p: Seq<char>) -> bool {
    p.len() <= s.len() && s.take(p.len() as int) == p
}

/// The first index from `j` on of a binding whose placeholder begins `s`, or
/// `reps.len()` when there is none.
pub open spec fn first_match(s: Seq<char>, reps: Seq<(Seq<char>, Seq<char>)>, j: int) -> int
    decreases reps.len() - j,
{
    if j < 0 || j >= reps.len() {
        reps.len() as int
    } else if starts_with(s, placeholder(reps[j].0)) {
        j
    } else {
        first_match(s, reps, j + 1)
    }
}

/// `s` with each placeholder of a bound name replaced by its text, read from
/// left to right; where two bindings have the same name the first one wins.
/// Text that a replacement puts in is not searched again, and placeholders of
/// unknown names stay as they are.
pub open spec fn substitute(s: Seq<char>, reps: Seq<(Seq<char>, Seq<char>)>) -> Seq<char>
    decreases s.len(),
{
    if s.len() == 0 {
        Seq::empty()
    } else {
        let j = first_match(s, reps, 0);
        if 0 <= j < reps.len() && starts_with(s, placeholder(reps[j].0)) {
            reps[j].1 + substitute(s.skip(placeholder(reps[j].0).len() as int), reps)
        } else {
            seq![s[0]] + substitute(s.drop_first(), reps)
        }
    }
}

/// Whether the placeholder `{name}` stands in `s` at position `i`.
fn placeholder_at(s: &str, n: usize, i: usize, name: &str) -> (r: bool)
    requires
        n == s@.len(),
        i < n,
    ensures
        r == starts_with(s@.skip(i as int), placeholder(name@)),
{
    let ghost rest = s@.skip(i as int);
    let ghost p = placeholder(name@);
    let m = name.unicode_len();
    assert(p.len() == m + 2);
    assert(forall|t: int| 0 <= t < m ==> p[t + 1] == name@[t]);
    let avail = n - i;
    if avail < 2 || m > avail - 2 {
        return false;
    }
    if s.get_char(i) != '{' || s.get_char(i + m + 1) != '}' {
        proof {
            if starts_with(rest, p) {
                assert(rest.take(p.len() as int)[0] == p[0]);
                assert(rest.take(p.len() as int)[m as int + 1] == p[m as int + 1]);
            }
        }
        return false;
    }
    let mut k: usize = 0;
    while k < m
        invariant
            n == s@.len(),
            m == name@.len(),
            i + m + 2 <= n,
            k <= m,
            forall|t: int| 0 <= t < k ==> s@[i + 1 + t] == name@[t],
            p == placeholder(name@),
            rest == s@.skip(i as int),
            s@[i as int] == '{',
            s@[i + m + 1] == '}',
        decreases m - k,
    {
        if s.get_char(i + 1 + k) != name.get_char(k) {
            proof {
                if starts_with(rest, p) {
                    assert(rest.take(p.len() as int)[k as int + 1] == p[k as int + 1]);
                }
            }
            return false;
        }
        k = k + 1;
    }
    assert(rest.take(p.len() as int) =~= p);
    true
}

/// The first binding whose placeholder stands in `s` at position `i`.
fn find_match(s: &str, n: usize, i: usize, params: &Vec<(String, ParameterValue)>) -> (r: usize)
    requires
        n == s@.len(),
        i < n,
    ensures
        r == first_match(s@.skip(i as int), replacements(bindings_view(params@)), 0),
{
    let ghost reps = replacements(bindings_view(params@));
    let mut j: usize = 0;
    while j < params.len()
        invariant
            n == s@.len(),
            i < n,
            j <= params@.len(),
            reps == replacements(bindings_view(params@)),
            first_match(s@.skip(i as int), reps, 0) == first_match(s@.skip(i as int), reps, j as int),
        decreases params@.len() - j,
    {
        assert(reps[j as int].0 == params@[j as int].0@);
        if placeholder_at(s, n, i, params[j].0.as_str()) {
            return j;
        }
        j = j + 1;
    }
    j
}

/// `s` with the placeholders of `params` replaced (see `substitute`).
pub fn substitute_parameters(s: &str, params: &Vec<(String, ParameterValue)>) -> (r: String)
    ensures
        r@ == substitute(s@, replacements(bindings_view(params@))),
{
    let ghost reps = replacements(bindings_view(params@));
    let n = s.unicode_len();
    let mut out = String::new();
    let mut i: usize = 0;
    assert(s@.skip(0) =~= s@);
    assert(out@ + substitute(s@, reps) =~= substitute(s@, reps));
    while i < n
        invariant
            n == s@.len(),
            i <= n,
            reps == replacements(bindings_view(params@)),
            out@ + substitute(s@.skip(i as int), reps) == substitute(s@, reps),
        decreases n - i,
    {
        let ghost rest = s@.skip(i as int);
        let ghost before = out@;
        let j = find_match(s, n, i, params);
        if j < params.len() {
            proof {
                assert(reps[j as int].0 == params@[j as int].0@);
                assert(reps[j as int].1 == text_of(params@[j as int].1@));
                lemma_first_match_is_match(rest, reps, 0);
            }
            let value = params[j].1.as_text();
            let k = params[j].0.unicode_len() + 2;
            out.append(value);
            proof {
                assert(rest.skip(k as int) =~= s@.skip(i + k));
                assert(before + (value@ + substitute(s@.skip(i + k), reps)) =~= out@ + substitute(
                    s@.skip(i + k),
                    reps,
                ));
            }
            i = i + k;
        } else {
            out.append(char_at(s, i));
            proof {
                lemma_first_match_is_match(rest, reps, 0);
                assert(rest.drop_first() =~= s@.skip(i + 1));
                assert(before + (seq![rest[0]] + substitute(s@.skip(i + 1), reps)) =~= out@
                    + substitute(s@.skip(i + 1), reps));
            }
            i = i + 1;
        }
    }
    assert(s@.skip(n as int) =~= Seq::<char>::empty());
    assert(out@ + Seq::<char>::empty() =~= out@);
    out
}

/// `first_match` finds a matching binding or none.
pub proof fn lemma_first_match_is_match(s: Seq<char>, reps: Seq<(Seq<char>, Seq<char>)>, j: int)
    requires
        0 <= j,
    ensures
        j <= first_match(s, reps, j) <= reps.len() || reps.len() < j,
        0 <= first_match(s, reps, j) < reps.len() ==> starts_with(
            s,
            placeholder(reps[first_match(s, reps, j)].0),
        ),
    decreases reps.len() - j,
{
    if j < reps.len() && !starts_with(s, placeholder(reps[j].0)) {
        lemma_first_match_is_match(s, reps, j + 1);
    }
}

/// A command to benchmark: an optional display-name template, a command
/// template and its parameter bindings, in declaration order.
#[derive(Debug, PartialEq, Eq)]
pub struct Command {
    name: Option<String>,
    expression: String,
    parameters: Vec<(String, ParameterValue)>,
}

/// What a `Command` holds.
pub struct CommandView {
    pub name: Option<Seq<char>>,
    pub expression: Seq<char>,
    pub parameters: Seq<(Seq<char>, ValueView)>,
}

impl View for Command {
    type V = CommandView;

    closed spec fn view(&self) -> CommandView {
        CommandView {
            name: match self.name {
                Some(n) => Some(n@),
                None => None,
            },
            expression: self.expression@,
            parameters: bindings_view(self.parameters@),
        }
    }
}

/// The command line of a command: its template with the placeholders filled.
pub open spec fn shell_command_of(c: CommandView) -> Seq<char> {
    substitute(c.expression, replacements(c.parameters))
}

/// The display name of a command: its name template with the placeholders
/// filled, or its command line where it has none.
pub open spec fn name_of(c: CommandView) -> Seq<char> {
    match c.name {
        Some(n) => substitute(n, replacements(c.parameters)),
        None => shell_command_of(c),
    }
}

impl Command {
    /// A command without parameters.
    pub fn new(name: Option<&str>, expression: &str) -> (r: Command)
        ensures
            r@.name == (match name {
                Some(n) => Some(n@),
                None => None::<Seq<char>>,
            }),
            r@.expression == expression@,
            r@.parameters.len() == 0,
    {
        Command::new_parametrized(name, expression, Vec::new())
    }

    /// A command whose placeholders are filled from `parameters`.
    pub fn new_parametrized(
        name: Option<&str>,
        expression: &str,
        parameters: Vec<(String, ParameterValue)>,
    ) -> (r: Command)
        ensures
            r@.name == (match name {
                Some(n) => Some(n@),
                None => None::<Seq<char>>,
            }),
            r@.expression == expression@,
            r@.parameters == bindings_view(parameters@),
    {
        let name = match name {
            Some(n) => Some(String::from_str(n)),
            None => None,
        };
        Command { name, expression: String::from_str(expression), parameters }
    }

    /// The display name (see `name_of`).
    pub fn get_name(&self) -> (r: String)
        ensures
            r@ == name_of(self@),
    {
        match &self.name {
            Some(n) => substitute_parameters(n.as_str(), &self.parameters),
            None => self.get_shell_command(),
        }
    }

    /// The command line (see `shell_command_of`).
    pub fn get_shell_command(&self) -> (r: String)
        ensures
            r@ == shell_command_of(self@),
    {
        substitute_parameters(self.expression.as_str(), &self.parameters)
    }

    /// The parameter bindings, in declaration order.
    pub fn get_parameters(&self) -> (r: &Vec<(String, ParameterValue)>)
        ensures
            bindings_view(r@) == self@.parameters,
    {
        &self.parameters
    }
}

} // verus!
