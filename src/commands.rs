//! The commands to benchmark, from the command-line arguments that name them.
use vstd::prelude::*;

use crate::command::{Command, CommandView, ParameterValue, ValueView};
use crate::error::{OptionsError, ParameterScanError};
use crate::dupes::{find_dupes, is_duplicated};
use crate::parameters::{
    cross_size, cross_size_checked, get_parameter_list_commands, has_duplicate_names, list_names,
    list_outcome, lists_view, names_of,
};
use crate::scan::{get_parameter_scan_commands, scan_outcome};
use crate::text::strings_view;
use crate::tokenize::{tokenize, tokens_of};

verus! {

/// A `--parameter-scan name start end` with its optional step size.
pub struct ParameterScan {
    pub name: String,
    pub start: String,
    pub end: String,
    pub step: Option<String>,
}

/// Why the commands could not be built.
#[derive(Debug, PartialEq, Eq)]
pub enum BuildError {
    Options(OptionsError),
    Scan(ParameterScanError),
}

/// The commands without parameters: one per template, each with the name
/// at the same position if there is one.
pub open spec fn plain_outcome(
    names: Seq<Seq<char>>,
    cmds: Seq<Seq<char>>,
    r: Result<Vec<Command>, OptionsError>,
) -> bool {
    match r {
        Err(OptionsError::TooManyCommandNames(n)) => names.len() > cmds.len() && n == cmds.len(),
        Err(_) => false,
        Ok(v) => names.len() <= cmds.len() && v@.len() == cmds.len() && forall|i: int|
            0 <= i < cmds.len() ==> #[trigger] v@[i]@ == (CommandView {
                name: if i < names.len() {
                    Some(names[i])
                } else {
                    None
                },
                expression: cmds[i],
                parameters: Seq::empty(),
            }),
    }
}

/// Commands without parameters (see `plain_outcome`).
pub fn get_plain_commands(command_names: &Vec<String>, commands: &Vec<String>) -> (r: Result<
    Vec<Command>,
    OptionsError,
>)
    ensures
        plain_outcome(strings_view(command_names@), strings_view(commands@), r),
{
    if command_names.len() > commands.len() {
        return Err(OptionsError::TooManyCommandNames(commands.len()));
    }
    let mut result: Vec<Command> = Vec::new();
    let mut i: usize = 0;
    while i < commands.len()
        invariant
            command_names@.len() <= commands@.len(),
            i <= commands@.len(),
            result@.len() == i,
            forall|t: int|
                0 <= t < i ==> #[trigger] result@[t]@ == (CommandView {
                    name: if t < command_names@.len() {
                        Some(strings_view(command_names@)[t])
                    } else {
                        None
                    },
                    expression: strings_view(commands@)[t],
                    parameters: Seq::empty(),
                }),
        decreases commands@.len() - i,
    {
        let name = if i < command_names.len() {
            Some(command_names[i].as_str())
        } else {
            None
        };
        let c = Command::new(name, commands[i].as_str());
        proof {
            assert(c@.parameters =~= Seq::empty());
        }
        result.push(c);
        i = i + 1;
    }
    Ok(result)
}

/// Parameter lists as given on the command line, each split into its
/// textual values.
pub open spec fn tokenized_lists(lists: Seq<(String, String)>) -> Seq<(Seq<char>, Seq<ValueView>)> {
    lists.map_values(
        |p: (String, String)| (p.0@, tokens_of(p.1@).map_values(|t: Seq<char>| ValueView::Text(t))),
    )
}

/// Splits each parameter list into its values.
fn tokenize_lists(lists: &Vec<(String, String)>) -> (r: Vec<(String, Vec<ParameterValue>)>)
    ensures
        lists_view(r@) == tokenized_lists(lists@),
{
    let mut r: Vec<(String, Vec<ParameterValue>)> = Vec::new();
    let mut j: usize = 0;
    while j < lists.len()
        invariant
            j <= lists@.len(),
            lists_view(r@) =~= tokenized_lists(lists@).take(j as int),
        decreases lists@.len() - j,
    {
        let tokens = tokenize(lists[j].1.as_str());
        let mut values: Vec<ParameterValue> = Vec::new();
        let mut i: usize = 0;
        while i < tokens.len()
            invariant
                i <= tokens@.len(),
                values@.map_values(|x: ParameterValue| x@) =~= strings_view(tokens@).take(
                    i as int,
                ).map_values(|t: Seq<char>| ValueView::Text(t)),
            decreases tokens@.len() - i,
        {
            let ghost before = values@.map_values(|x: ParameterValue| x@);
            values.push(ParameterValue::Text(tokens[i].clone()));
            proof {
                assert(values@.map_values(|x: ParameterValue| x@) =~= before.push(
                    ValueView::Text(tokens@[i as int]@),
                ));
                assert(strings_view(tokens@).take(i + 1) =~= strings_view(tokens@).take(
                    i as int,
                ).push(tokens@[i as int]@));
            }
            i = i + 1;
        }
        let ghost before = lists_view(r@);
        r.push((lists[j].0.clone(), values));
        proof {
            assert(strings_view(tokens@).take(i as int) =~= strings_view(tokens@));
            assert(lists_view(r@) =~= before.push(tokenized_lists(lists@)[j as int]));
            assert(tokenized_lists(lists@).take(j + 1) =~= tokenized_lists(lists@).take(
                j as int,
            ).push(tokenized_lists(lists@)[j as int]));
        }
        j = j + 1;
    }
    assert(tokenized_lists(lists@).take(j as int) =~= tokenized_lists(lists@));
    r
}

/// The commands to benchmark: with a parameter scan, those of the scan;
/// else with parameter lists, those of their cross product (with distinct
/// parameter names, a product too large to hold is an error); else one per
/// command template.
pub open spec fn build_outcome(
    names: Seq<Seq<char>>,
    cmds: Seq<Seq<char>>,
    scan: Option<ParameterScan>,
    lists: Seq<(String, String)>,
    r: Result<Vec<Command>, BuildError>,
) -> bool {
    match scan {
        Some(sc) => match r {
            Ok(v) => scan_outcome(names, cmds, sc.name@, sc.start@, sc.end@, match sc.step {
                Some(t) => Some(t@),
                None => None,
            }, Ok(v)),
            Err(BuildError::Scan(e)) => scan_outcome(names, cmds, sc.name@, sc.start@, sc.end@, match sc.step {
                Some(t) => Some(t@),
                None => None,
            }, Err(e)),
            Err(_) => false,
        },
        None => if lists.len() > 0 {
            let tl = tokenized_lists(lists);
            if !has_duplicate_names(tl) && cross_size(cmds.len(), tl) > usize::MAX {
                r matches Err(BuildError::Options(OptionsError::TooManyCommands))
            } else {
                match r {
                    Ok(v) => list_outcome(names, cmds, tl, Ok(v)),
                    Err(BuildError::Options(e)) => list_outcome(names, cmds, tl, Err(e)),
                    Err(_) => false,
                }
            }
        } else {
            match r {
                Ok(v) => plain_outcome(names, cmds, Ok(v)),
                Err(BuildError::Options(e)) => plain_outcome(names, cmds, Err(e)),
                Err(_) => false,
            }
        },
    }
}

/// Builds the commands to benchmark (see `build_outcome`).
pub fn build_commands(
    command_names: &Vec<String>,
    commands: &Vec<String>,
    scan: &Option<ParameterScan>,
    lists: &Vec<(String, String)>,
) -> (r: Result<Vec<Command>, BuildError>)
    ensures
        build_outcome(strings_view(command_names@), strings_view(commands@), *scan, lists@, r),
{
    match scan {
        Some(sc) => {
            let step = match &sc.step {
                Some(t) => Some(t.as_str()),
                None => None,
            };
            match get_parameter_scan_commands(
                command_names,
                commands,
                sc.name.as_str(),
                sc.start.as_str(),
                sc.end.as_str(),
                step,
            ) {
                Ok(v) => Ok(v),
                Err(e) => Err(BuildError::Scan(e)),
            }
        },
        None => {
            if lists.len() > 0 {
                let params = tokenize_lists(lists);
                let dupes = find_dupes(&names_of(&params));
                if dupes.len() > 0 {
                    proof {
                        assert(strings_view(dupes@).contains(strings_view(dupes@)[0]));
                    }
                    return Err(BuildError::Options(OptionsError::DuplicateParameterNames(dupes)));
                }
                proof {
                    assert forall|x: Seq<char>| !is_duplicated(list_names(lists_view(params@)), x) by {
                        if is_duplicated(list_names(lists_view(params@)), x) {
                            assert(strings_view(dupes@).contains(x));
                        }
                    }
                }
                if cross_size_checked(commands.len(), &params).is_none() {
                    return Err(BuildError::Options(OptionsError::TooManyCommands));
                }
                match get_parameter_list_commands(command_names, commands, &params) {
                    Ok(v) => Ok(v),
                    Err(e) => Err(BuildError::Options(e)),
                }
            } else {
                match get_plain_commands(command_names, commands) {
                    Ok(v) => Ok(v),
                    Err(e) => Err(BuildError::Options(e)),
                }
            }
        },
    }
}

} // verus!
