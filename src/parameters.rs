//! Expansion of commands over the cross product of their parameter values.
use vstd::prelude::*;
use vstd::arithmetic::div_mod::{lemma_fundamental_div_mod, lemma_fundamental_div_mod_converse, lemma_mod_pos_bound};

use crate::command::{bindings_view, Command, CommandView, ParameterValue, ValueView};
use crate::dupes::{find_dupes, is_duplicated, is_sorted_duplicates};
use crate::error::OptionsError;
use crate::text::strings_view;

verus! {

/// The digits of position `k` in the mixed radix `dims`, the leftmost digit
/// varying fastest.
pub open spec fn digits(k: nat, dims: Seq<nat>) -> Seq<nat>
    decreases dims.len(),
{
    if dims.len() == 0 {
        Seq::empty()
    } else {
        seq![k % dims[0]] + digits(k / dims[0], dims.drop_first())
    }
}

/// The number of digit tuples in the mixed radix `dims`.
pub open spec fn space_size(dims: Seq<nat>) -> nat
    decreases dims.len(),
{
    if dims.len() == 0 {
        1
    } else {
        space_size(dims.drop_last()) * dims.last()
    }
}

/// The digit tuple that follows `ds` when the leftmost digit is stepped
/// first and carries move right; the last tuple wraps round to all zeros.
pub open spec fn successor(ds: Seq<nat>, dims: Seq<nat>) -> Seq<nat>
    decreases ds.len(),
{
    if ds.len() == 0 {
        Seq::empty()
    } else if ds[0] + 1 < dims[0] {
        seq![(ds[0] + 1) as nat] + ds.drop_first()
    } else {
        seq![0nat] + successor(ds.drop_first(), dims.drop_first())
    }
}

/// Parameter lists as names and values.
pub open spec fn lists_view(v: Seq<(String, Vec<ParameterValue>)>) -> Seq<(Seq<char>, Seq<ValueView>)> {
    v.map_values(|p: (String, Vec<ParameterValue>)| (p.0@, p.1@.map_values(|x: ParameterValue| x@)))
}

/// The dimensions of the cross product: the commands, then each parameter
/// list in declaration order.
pub open spec fn dimensions(n_commands: nat, lists: Seq<(Seq<char>, Seq<ValueView>)>) -> Seq<nat> {
    seq![n_commands] + lists.map_values(|p: (Seq<char>, Seq<ValueView>)| p.1.len())
}

/// The number of commands of the cross product.
pub open spec fn cross_size(n_commands: nat, lists: Seq<(Seq<char>, Seq<ValueView>)>) -> nat {
    space_size(dimensions(n_commands, lists))
}

/// The name template of the `k`-th command: the `k`-th name, else the one
/// name shared by all, else none.
pub open spec fn name_for(k: nat, names: Seq<Seq<char>>) -> Option<Seq<char>> {
    if k < names.len() {
        Some(names[k as int])
    } else if names.len() > 0 {
        Some(names[0])
    } else {
        None
    }
}

/// The `k`-th command of the cross product of `commands` with `lists`.
pub open spec fn cross_command(
    k: nat,
    names: Seq<Seq<char>>,
    commands: Seq<Seq<char>>,
    lists: Seq<(Seq<char>, Seq<ValueView>)>,
) -> CommandView {
    let d = digits(k, dimensions(commands.len(), lists));
    CommandView {
        name: name_for(k, names),
        expression: commands[d[0] as int],
        parameters: Seq::new(lists.len(), |j: int| (lists[j].0, lists[j].1[d[j + 1] as int])),
    }
}

/// Every digit is below its radix.
pub proof fn lemma_digits_bounded(k: nat, dims: Seq<nat>)
    requires
        forall|i: int| 0 <= i < dims.len() ==> dims[i] > 0,
    ensures
        digits(k, dims).len() == dims.len(),
        forall|i: int| 0 <= i < dims.len() ==> digits(k, dims)[i] < dims[i],
    decreases dims.len(),
{
    if dims.len() > 0 {
        lemma_digits_bounded(k / dims[0], dims.drop_first());
        let ds = digits(k, dims);
        assert(ds == seq![k % dims[0]] + digits(k / dims[0], dims.drop_first()));
        assert forall|i: int| 0 <= i < dims.len() implies digits(k, dims)[i] < dims[i] by {
            if i > 0 {
                assert(digits(k, dims)[i] == digits(k / dims[0], dims.drop_first())[i - 1]);
                assert(dims.drop_first()[i - 1] == dims[i]);
            } else {
                lemma_mod_pos_bound(k as int, dims[0] as int);
            }
        }
    }
}

/// A cross product with an empty dimension is empty.
pub proof fn lemma_space_size_zero(dims: Seq<nat>, i: int)
    requires
        0 <= i < dims.len(),
        dims[i] == 0,
    ensures
        space_size(dims) == 0,
    decreases dims.len(),
{
    let a = space_size(dims.drop_last());
    let b = dims.last();
    if i < dims.len() - 1 {
        assert(dims.drop_last()[i] == dims[i]);
        lemma_space_size_zero(dims.drop_last(), i);
        assert(a * b == 0) by (nonlinear_arith)
            requires
                a == 0,
        ;
    } else {
        assert(a * b == 0) by (nonlinear_arith)
            requires
                b == 0,
        ;
    }
}

/// Without empty dimensions, the product over a prefix is at most the whole.
pub proof fn lemma_space_size_prefix(dims: Seq<nat>, d: int)
    requires
        0 <= d <= dims.len(),
        forall|i: int| 0 <= i < dims.len() ==> dims[i] > 0,
    ensures
        space_size(dims.take(d)) <= space_size(dims),
        space_size(dims.take(d)) > 0,
    decreases dims.len() - d,
{
    if d == dims.len() {
        assert(dims.take(d) =~= dims);
        lemma_space_size_positive(dims);
    } else {
        lemma_space_size_prefix(dims, d + 1);
        lemma_space_size_positive(dims.take(d));
        assert(dims.take(d + 1).drop_last() =~= dims.take(d));
        let a = space_size(dims.take(d));
        let b = dims[d];
        assert(a <= a * b) by (nonlinear_arith)
            requires
                b > 0,
        ;
    }
}

/// Without empty dimensions, the product is positive.
pub proof fn lemma_space_size_positive(dims: Seq<nat>)
    requires
        forall|i: int| 0 <= i < dims.len() ==> dims[i] > 0,
    ensures
        space_size(dims) > 0,
    decreases dims.len(),
{
    if dims.len() > 0 {
        assert(forall|i: int| 0 <= i < dims.len() - 1 ==> dims.drop_last()[i] == dims[i]);
        lemma_space_size_positive(dims.drop_last());
        let a = space_size(dims.drop_last());
        let b = dims.last();
        assert(a * b > 0) by (nonlinear_arith)
            requires
                a > 0,
                b > 0,
        ;
    }
}

/// Stepping a position by one steps its digits as an odometer whose leftmost
/// wheel turns fastest: the command index varies fastest, then the parameters
/// in declaration order.
pub proof fn lemma_leftmost_varies_fastest(k: nat, dims: Seq<nat>)
    requires
        forall|i: int| 0 <= i < dims.len() ==> dims[i] > 0,
    ensures
        digits(k + 1, dims) == successor(digits(k, dims), dims),
    decreases dims.len(),
{
    if dims.len() > 0 {
        let d = dims[0] as int;
        let q = k as int / d;
        let r = k as int % d;
        lemma_fundamental_div_mod(k as int, d);
        lemma_digits_bounded(k, dims);
        let ds = digits(k, dims);
        assert(ds[0] == r);
        assert(ds.drop_first() =~= digits(k / dims[0], dims.drop_first()));
        if r + 1 < d {
            assert(k + 1 == q * d + (r + 1)) by (nonlinear_arith)
                requires
                    k == d * q + r,
            ;
            lemma_fundamental_div_mod_converse((k + 1) as int, d, q, r + 1);
            assert(digits(k + 1, dims) =~= successor(ds, dims));
        } else {
            assert(k + 1 == (q + 1) * d + 0) by (nonlinear_arith)
                requires
                    k == d * q + r,
                    r + 1 == d,
            ;
            lemma_fundamental_div_mod_converse((k + 1) as int, d, q + 1, 0);
            lemma_leftmost_varies_fastest(k / dims[0], dims.drop_first());
            assert(digits(k + 1, dims) =~= successor(ds, dims));
        }
    }
}

/// Whether some parameter list in `lists` has no values.
pub open spec fn has_empty_list(lists: Seq<(Seq<char>, Seq<ValueView>)>) -> bool {
    exists|j: int| 0 <= j < lists.len() && lists[j].1.len() == 0
}

/// A copy of the binding of parameter list `j` to its `i`-th value.
fn binding_at(params: &Vec<(String, Vec<ParameterValue>)>, j: usize, i: usize) -> (r: (
    String,
    ParameterValue,
))
    requires
        j < params@.len(),
        i < params@[j as int].1@.len(),
    ensures
        r.0@ == params@[j as int].0@,
        r.1@ == params@[j as int].1@[i as int]@,
{
    (params[j].0.clone(), params[j].1[i].duplicate())
}

/// The `k`-th command of the cross product of `commands` with `params`.
fn cross_command_at(
    k: usize,
    command_names: &Vec<String>,
    commands: &Vec<String>,
    params: &Vec<(String, Vec<ParameterValue>)>,
) -> (r: Command)
    requires
        commands@.len() > 0,
        !has_empty_list(lists_view(params@)),
    ensures
        r@ == cross_command(k as nat, strings_view(command_names@), strings_view(commands@), lists_view(params@)),
{
    let ghost lists = lists_view(params@);
    let ghost dims = dimensions(commands@.len(), lists);
    let ghost ds = digits(k as nat, dims);
    proof {
        assert forall|i: int| 0 <= i < dims.len() implies dims[i] > 0 by {
            if i > 0 {
                assert(dims[i] == lists[i - 1].1.len());
            }
        }
        lemma_digits_bounded(k as nat, dims);
        assert(ds.drop_first() =~= digits(k as nat / dims[0], dims.skip(1)));
    }
    let n = commands.len();
    let cmd_index = k % n;
    let mut q = k / n;
    let mut bindings: Vec<(String, ParameterValue)> = Vec::new();
    let mut j: usize = 0;
    while j < params.len()
        invariant
            lists == lists_view(params@),
            dims == dimensions(commands@.len(), lists),
            ds == digits(k as nat, dims),
            ds.len() == dims.len(),
            forall|i: int| 0 <= i < dims.len() ==> dims[i] > 0,
            forall|i: int| 0 <= i < dims.len() ==> ds[i] < dims[i],
            j <= params@.len(),
            digits(q as nat, dims.skip(j + 1)) == ds.skip(j + 1),
            bindings_view(bindings@) =~= Seq::new(
                j as nat,
                |t: int| (lists[t].0, lists[t].1[ds[t + 1] as int]),
            ),
        decreases params@.len() - j,
    {
        let len = params[j].1.len();
        proof {
            assert(dims[j + 1] == len);
            assert(ds.skip(j + 1)[0] == ds[j + 1]);
            assert(dims.skip(j + 1).drop_first() =~= dims.skip(j + 2));
            assert(ds.skip(j + 1).drop_first() =~= ds.skip(j + 2));
            assert(ds[j + 1] == q % len);
        }
        let ghost before = bindings_view(bindings@);
        let b = binding_at(params, j, q % len);
        bindings.push(b);
        proof {
            assert(lists[j as int].0 == params@[j as int].0@);
            assert(lists[j as int].1[ds[j + 1] as int] == params@[j as int].1@[(q % len) as int]@);
            assert(bindings_view(bindings@) =~= before.push(
                (lists[j as int].0, lists[j as int].1[ds[j + 1] as int]),
            ));
        }
        q = q / len;
        j = j + 1;
    }
    let name = if k < command_names.len() {
        Some(command_names[k].as_str())
    } else if command_names.len() > 0 {
        Some(command_names[0].as_str())
    } else {
        None
    };
    let r = Command::new_parametrized(name, commands[cmd_index].as_str(), bindings);
    proof {
        let c = cross_command(k as nat, strings_view(command_names@), strings_view(commands@), lists);
        assert(r@.parameters =~= c.parameters);
        assert(r@.name == c.name);
        assert(r@.expression == c.expression);
    }
    r
}

/// The names of the parameter lists, in declaration order.
pub open spec fn list_names(lists: Seq<(Seq<char>, Seq<ValueView>)>) -> Seq<Seq<char>> {
    lists.map_values(|p: (Seq<char>, Seq<ValueView>)| p.0)
}

/// Some parameter name is declared twice.
pub open spec fn has_duplicate_names(lists: Seq<(Seq<char>, Seq<ValueView>)>) -> bool {
    exists|x: Seq<char>| is_duplicated(list_names(lists), x)
}

/// The names of the parameter lists.
pub(crate) fn names_of(params: &Vec<(String, Vec<ParameterValue>)>) -> (r: Vec<String>)
    ensures
        strings_view(r@) == list_names(lists_view(params@)),
{
    let mut r: Vec<String> = Vec::new();
    let mut j: usize = 0;
    while j < params.len()
        invariant
            j <= params@.len(),
            strings_view(r@) =~= list_names(lists_view(params@)).take(j as int),
        decreases params@.len() - j,
    {
        let ghost before = strings_view(r@);
        r.push(params[j].0.clone());
        proof {
            let ln = list_names(lists_view(params@));
            assert(ln[j as int] == params@[j as int].0@);
            assert(strings_view(r@) =~= before.push(params@[j as int].0@));
            assert(ln.take(j + 1) =~= ln.take(j as int).push(ln[j as int]));
        }
        j = j + 1;
    }
    r
}

/// Whether some parameter list is empty.
fn any_empty_list(params: &Vec<(String, Vec<ParameterValue>)>) -> (r: bool)
    ensures
        r == has_empty_list(lists_view(params@)),
{
    let mut j: usize = 0;
    while j < params.len()
        invariant
            j <= params@.len(),
            forall|t: int| 0 <= t < j ==> lists_view(params@)[t].1.len() > 0,
        decreases params@.len() - j,
    {
        if params[j].1.len() == 0 {
            assert(lists_view(params@)[j as int].1.len() == 0);
            return true;
        }
        j = j + 1;
    }
    false
}

/// The number of commands of the cross product, where it fits in a `usize`.
pub fn cross_size_checked(n_commands: usize, params: &Vec<(String, Vec<ParameterValue>)>) -> (r:
    Option<usize>)
    ensures
        r == (if cross_size(n_commands as nat, lists_view(params@)) <= usize::MAX {
            Some(cross_size(n_commands as nat, lists_view(params@)) as usize)
        } else {
            None::<usize>
        }),
{
    let ghost lists = lists_view(params@);
    let ghost dims = dimensions(n_commands as nat, lists);
    if n_commands == 0 || any_empty_list(params) {
        proof {
            if n_commands == 0 {
                lemma_space_size_zero(dims, 0);
            } else {
                let j = choose|j: int| 0 <= j < lists.len() && lists[j].1.len() == 0;
                assert(dims[j + 1] == 0);
                lemma_space_size_zero(dims, j + 1);
            }
        }
        return Some(0);
    }
    proof {
        assert forall|i: int| 0 <= i < dims.len() implies dims[i] > 0 by {
            if i > 0 {
                assert(dims[i] == lists[i - 1].1.len());
            }
        }
        assert(dims.take(1).drop_last() =~= Seq::<nat>::empty());
        assert(dims.take(1).last() == n_commands as nat);
        assert(space_size(Seq::<nat>::empty()) == 1);
        assert(space_size(dims.take(1)) == space_size(Seq::<nat>::empty()) * n_commands);
    }
    let mut size = n_commands;
    let mut j: usize = 0;
    while j < params.len()
        invariant
            lists == lists_view(params@),
            dims == dimensions(n_commands as nat, lists),
            forall|i: int| 0 <= i < dims.len() ==> dims[i] > 0,
            j <= params@.len(),
            size == space_size(dims.take(j + 1)),
        decreases params@.len() - j,
    {
        let len = params[j].1.len();
        proof {
            assert(dims.take(j + 2).drop_last() =~= dims.take(j + 1));
            assert(dims[j + 1] == len);
        }
        if size > usize::MAX / len {
            proof {
                lemma_space_size_prefix(dims, j + 2);
                let a = size as int;
                let b = len as int;
                let mx = usize::MAX as int;
                assert(a * b > mx) by (nonlinear_arith)
                    requires
                        b > 0,
                        a > mx / b,
                ;
            }
            return None;
        }
        proof {
            let a = size as int;
            let b = len as int;
            let mx = usize::MAX as int;
            assert(a * b <= mx) by (nonlinear_arith)
                requires
                    b > 0,
                    a <= mx / b,
            ;
        }
        size = size * len;
        j = j + 1;
    }
    assert(dims.take(j + 1) =~= dims);
    Some(size)
}

/// In the cross product the command template varies fastest: the command
/// after one whose template is not the last has the next template and the
/// same parameter values, and the command after one with the last template
/// has the first template again.
pub proof fn law_command_varies_fastest(
    k: nat,
    names: Seq<Seq<char>>,
    cmds: Seq<Seq<char>>,
    lists: Seq<(Seq<char>, Seq<ValueView>)>,
)
    requires
        cmds.len() > 0,
        !has_empty_list(lists),
    ensures
        ({
            let c = digits(k, dimensions(cmds.len(), lists))[0];
            let this = cross_command(k, names, cmds, lists);
            let next = cross_command(k + 1, names, cmds, lists);
            &&& this.expression == cmds[c as int]
            &&& c + 1 < cmds.len() ==> next.expression == cmds[c + 1int] && next.parameters
                == this.parameters
            &&& c + 1 == cmds.len() ==> next.expression == cmds[0]
        }),
{
    let dims = dimensions(cmds.len(), lists);
    assert forall|i: int| 0 <= i < dims.len() implies dims[i] > 0 by {
        if i > 0 {
            assert(dims[i] == lists[i - 1].1.len());
        }
    }
    lemma_digits_bounded(k, dims);
    lemma_leftmost_varies_fastest(k, dims);
    let d = digits(k, dims);
    let e = digits(k + 1, dims);
    if d[0] + 1 < dims[0] {
        assert forall|j: int| 0 <= j < lists.len() implies #[trigger] e[j + 1] == d[j + 1] by {
            assert(e == seq![(d[0] + 1) as nat] + d.drop_first());
        }
        assert(cross_command(k + 1, names, cmds, lists).parameters =~= cross_command(
            k,
            names,
            cmds,
            lists,
        ).parameters);
    } else {
        assert(e[0] == 0);
    }
}

/// The number of values of each parameter list.
pub open spec fn list_lengths(lists: Seq<(Seq<char>, Seq<ValueView>)>) -> Seq<nat> {
    lists.map_values(|p: (Seq<char>, Seq<ValueView>)| p.1.len())
}

/// The product over `[n] + lens` is `n` times the product over `lens`.
pub proof fn lemma_space_size_cons(n: nat, lens: Seq<nat>)
    ensures
        space_size(seq![n] + lens) == n * space_size(lens),
    decreases lens.len(),
{
    let d = seq![n] + lens;
    if lens.len() == 0 {
        assert(d.drop_last() =~= Seq::<nat>::empty());
        assert(d.last() == n);
        assert(space_size(d) == space_size(d.drop_last()) * d.last());
        assert(space_size(Seq::<nat>::empty()) == 1);
        assert(space_size(lens) == 1);
        assert(space_size(d.drop_last()) == 1);
        assert(space_size(d) == 1 * n);
        let sd = space_size(d);
        let sl = space_size(lens);
        assert(sd == n * sl) by (nonlinear_arith)
            requires
                sd == 1 * n,
                sl == 1,
        ;
    } else {
        assert(d.drop_last() =~= seq![n] + lens.drop_last());
        assert(d.last() == lens.last());
        lemma_space_size_cons(n, lens.drop_last());
        let a = space_size(lens.drop_last());
        let b = lens.last();
        assert(space_size(d) == space_size(d.drop_last()) * d.last());
        assert(space_size(lens) == a * b);
        assert((n * a) * b == n * (a * b)) by (nonlinear_arith);
        assert(space_size(d) == (n * a) * b);
        assert(space_size(d) == n * space_size(lens));
    }
}

/// The cross product holds `|commands| · ∏ |listᵢ|` commands: whatever the
/// parameter-list expansion returns on success has exactly that many.
pub proof fn law_cross_product_size(
    names: Seq<Seq<char>>,
    cmds: Seq<Seq<char>>,
    lists: Seq<(Seq<char>, Seq<ValueView>)>,
    v: Vec<Command>,
)
    requires
        list_outcome(names, cmds, lists, Ok(v)),
    ensures
        v@.len() == cmds.len() * space_size(list_lengths(lists)),
{
    assert(dimensions(cmds.len(), lists) =~= seq![cmds.len()] + list_lengths(lists));
    lemma_space_size_cons(cmds.len(), list_lengths(lists));
}

/// What `get_parameter_list_commands` returns: the duplicated parameter
/// names where there are any; else, where there is a command to run and the
/// number of names is neither 0, 1 nor the number of commands, that error;
/// else the cross product, whose size is the product of the dimensions.
pub open spec fn list_outcome(
    names: Seq<Seq<char>>,
    cmds: Seq<Seq<char>>,
    lists: Seq<(Seq<char>, Seq<ValueView>)>,
    r: Result<Vec<Command>, OptionsError>,
) -> bool {
    let size = cross_size(cmds.len(), lists);
    match r {
        Err(OptionsError::DuplicateParameterNames(d)) => has_duplicate_names(lists)
            && is_sorted_duplicates(strings_view(d@), list_names(lists)),
        Err(OptionsError::UnexpectedCommandNameCount(given, built)) => !has_duplicate_names(lists)
            && size > 0 && names.len() > 1 && names.len() != size && given == names.len() && built
            == size,
        Err(_) => false,
        Ok(v) => !has_duplicate_names(lists) && (size == 0 || names.len() <= 1 || names.len()
            == size) && v@.len() == size && forall|k: int|
            0 <= k < size ==> #[trigger] v@[k]@ == cross_command(k as nat, names, cmds, lists),
    }
}

/// The commands of the cross product of `commands` with the parameter lists
/// `params`: the command index varies fastest, then the lists in declaration
/// order. `command_names` holds no name, one shared name template, or one
/// per command built. Parameter names must be distinct; with an empty list
/// (or no command) there is nothing to run.
pub fn get_parameter_list_commands(
    command_names: &Vec<String>,
    commands: &Vec<String>,
    params: &Vec<(String, Vec<ParameterValue>)>,
) -> (r: Result<Vec<Command>, OptionsError>)
    requires
        cross_size(commands@.len(), lists_view(params@)) <= usize::MAX,
    ensures
        list_outcome(
            strings_view(command_names@),
            strings_view(commands@),
            lists_view(params@),
            r,
        ),
        has_empty_list(lists_view(params@)) && !has_duplicate_names(lists_view(params@)) ==> (
        r matches Ok(v) && v@.len() == 0),
{
    let ghost lists = lists_view(params@);
    let ghost dims = dimensions(commands@.len(), lists);
    let names = names_of(params);
    let dupes = find_dupes(&names);
    if dupes.len() > 0 {
        proof {
            assert(strings_view(dupes@).contains(strings_view(dupes@)[0]));
        }
        return Err(OptionsError::DuplicateParameterNames(dupes));
    }
    proof {
        assert forall|x: Seq<char>| !is_duplicated(list_names(lists), x) by {
            if is_duplicated(list_names(lists), x) {
                assert(strings_view(dupes@).contains(x));
            }
        }
    }
    if commands.len() == 0 || any_empty_list(params) {
        proof {
            if commands.len() == 0 {
                lemma_space_size_zero(dims, 0);
            } else {
                let j = choose|j: int| 0 <= j < lists.len() && lists[j].1.len() == 0;
                assert(dims[j + 1] == 0);
                lemma_space_size_zero(dims, j + 1);
            }
        }
        return Ok(Vec::new());
    }
    let size = cross_size_checked(commands.len(), params).unwrap();
    proof {
        assert forall|i: int| 0 <= i < dims.len() implies dims[i] > 0 by {
            if i > 0 {
                assert(dims[i] == lists[i - 1].1.len());
            }
        }
        lemma_space_size_positive(dims);
    }
    if command_names.len() > 1 && command_names.len() != size {
        return Err(OptionsError::UnexpectedCommandNameCount(command_names.len(), size));
    }
    let mut result: Vec<Command> = Vec::new();
    let mut k: usize = 0;
    while k < size
        invariant
            lists == lists_view(params@),
            size == cross_size(commands@.len(), lists),
            commands@.len() > 0,
            !has_empty_list(lists),
            k <= size,
            result@.len() == k,
            forall|t: int|
                0 <= t < k ==> #[trigger] result@[t]@ == cross_command(
                    t as nat,
                    strings_view(command_names@),
                    strings_view(commands@),
                    lists,
                ),
        decreases size - k,
    {
        let c = cross_command_at(k, command_names, commands, params);
        result.push(c);
        k = k + 1;
    }
    Ok(result)
}

} // verus!
