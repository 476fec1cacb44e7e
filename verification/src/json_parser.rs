//! Jobs that come from a definition file.
//!
//! A definition names the variables it uses and lists jobs whose paths may
//! hold them as `{NAME}`. The caller reads and parses the file; the values
//! arrive beside it. Each job's paths are then written out in full.

use crate::args::{operation_named, ArgsType, Operation};
use crate::normalize::{fix_windows_path, windows_form};
use crate::text::{
    extend_range, from_chars, replace, replace_all, split, split_by, texts, to_chars,
};
use vstd::prelude::*;

verus! {

/// One job of a definition, as written.
#[derive(Clone, Debug, PartialEq, Eq)]
pub struct JobConfigs {
    pub todo: String,
    pub src: String,
    pub dst: String,
}

/// A definition: the variables in use, and the jobs.
#[derive(Clone, Debug, PartialEq, Eq)]
pub struct AssetRelocationDef {
    pub variables_in_use: Vec<String>,
    pub jobs: Vec<JobConfigs>,
}

/// How the variable `name` is written in a path.
pub open spec fn placeholder(name: Seq<char>) -> Seq<char> {
    seq!['{'] + name + seq!['}']
}

/// `text` after each variable in turn, first to last, has had its placeholder
/// replaced by its value.
pub open spec fn substituted(text: Seq<char>, variables: Seq<(String, String)>) -> Seq<char>
    decreases variables.len(),
{
    if variables.len() == 0 {
        text
    } else {
        replace_all(
            substituted(text, variables.drop_last()),
            placeholder(variables.last().0@),
            variables.last().1@,
        )
    }
}

/// The variables that were given, none where none were.
pub open spec fn given(variables: Option<Vec<(String, String)>>) -> Seq<(String, String)> {
    match variables {
        Some(list) => list@,
        None => Seq::empty(),
    }
}

/// Whether `arg` is `job` spelled out: a job on the command line with the
/// operation that `job.todo` names and with both paths of `job` after
/// substitution.
pub open spec fn spells_out(arg: ArgsType, job: JobConfigs, variables: Seq<(String, String)>) -> bool {
    &&& arg matches ArgsType::CmdLine { op, from, to }
    &&& Some(op) == operation_named(job.todo@)
    &&& from@ == substituted(job.src@, variables)
    &&& to@ == substituted(job.dst@, variables)
}

/// What is wrong between a definition and the values given for it.
#[derive(Clone, Copy, Debug, PartialEq, Eq, Structural)]
pub enum DefinitionFault {
    /// The definition uses variables and none were given, or the other way
    /// round.
    VariablesMissing,
    /// The number of values is not the number of variables.
    CountMismatch,
    /// A job's `todo` names no operation.
    UnknownOperation,
}

/// The first thing wrong between `asset_def` and `variables`, if anything is.
pub open spec fn fault_of(
    asset_def: AssetRelocationDef,
    variables: Option<Vec<(String, String)>>,
) -> Option<DefinitionFault> {
    if (variables is None) != (asset_def.variables_in_use.len() == 0) {
        Some(DefinitionFault::VariablesMissing)
    } else if given(variables).len() != asset_def.variables_in_use.len() {
        Some(DefinitionFault::CountMismatch)
    } else if exists|i: int|
        0 <= i < asset_def.jobs.len() && operation_named((#[trigger] asset_def.jobs[i]).todo@)
            is None {
        Some(DefinitionFault::UnknownOperation)
    } else {
        None
    }
}

/// `text` with the placeholder of each variable replaced by its value, the
/// variables taken in order.
pub fn substitute(text: &str, variables: &Vec<(String, String)>) -> (written: String)
    ensures
        written@ == substituted(text@, variables@),
{
    let mut written = text.to_owned();
    let mut i: usize = 0;
    while i < variables.len()
        invariant
            i <= variables.len(),
            written@ == substituted(text@, variables@.take(i as int)),
        decreases variables.len() - i,
    {
        let mut key: Vec<char> = Vec::new();
        key.push('{');
        let name = to_chars(variables[i].0.as_str());
        extend_range(&mut key, &name, 0, name.len());
        key.push('}');
        proof {
            assert(key@ == placeholder(variables@[i as int].0@));
            assert(variables@.take(i + 1).drop_last() == variables@.take(i as int));
        }
        let key = from_chars(&key);
        written = replace(written.as_str(), key.as_str(), variables[i].1.as_str());
        i += 1;
    }
    assert(variables@.take(variables.len() as int) == variables@);
    written
}

/// Looks for what is wrong between a definition and the values given for it.
pub fn check_definition(
    asset_def: &AssetRelocationDef,
    variables: &Option<Vec<(String, String)>>,
) -> (fault: Option<DefinitionFault>)
    ensures
        fault == fault_of(*asset_def, *variables),
{
    let count = match variables {
        Some(list) => list.len(),
        None => 0,
    };
    if variables.is_none() != (asset_def.variables_in_use.len() == 0) {
        return Some(DefinitionFault::VariablesMissing);
    }
    if count != asset_def.variables_in_use.len() {
        return Some(DefinitionFault::CountMismatch);
    }
    let mut i: usize = 0;
    while i < asset_def.jobs.len()
        invariant
            i <= asset_def.jobs.len(),
            (variables is None) == (asset_def.variables_in_use.len() == 0),
            given(*variables).len() == asset_def.variables_in_use.len(),
            forall|k: int|
                0 <= k < i ==> operation_named((#[trigger] asset_def.jobs[k]).todo@) is Some,
        decreases asset_def.jobs.len() - i,
    {
        if Operation::from_name(asset_def.jobs[i].todo.as_str()).is_none() {
            return Some(DefinitionFault::UnknownOperation);
        }
        i += 1;
    }
    None
}

/// The jobs of a definition, spelled out: each with its operation and with
/// its paths written in full.
pub fn map_variables(asset_def: AssetRelocationDef, variables: Option<Vec<(String, String)>>) -> (jobs:
    Vec<ArgsType>)
    requires
        fault_of(asset_def, variables) is None,
    ensures
        jobs.len() == asset_def.jobs.len(),
        forall|i: int|
            0 <= i < jobs.len() ==> spells_out(#[trigger] jobs[i], asset_def.jobs[i], given(variables)),
{
    let none: Vec<(String, String)> = Vec::new();
    let values = match &variables {
        Some(list) => list,
        None => &none,
    };
    let mut jobs: Vec<ArgsType> = Vec::new();
    let mut i: usize = 0;
    while i < asset_def.jobs.len()
        invariant
            i <= asset_def.jobs.len(),
            values@ == given(variables),
            fault_of(asset_def, variables) is None,
            jobs.len() == i,
            forall|k: int|
                0 <= k < i ==> spells_out(#[trigger] jobs[k], asset_def.jobs[k], given(variables)),
        decreases asset_def.jobs.len() - i,
    {
        let job = &asset_def.jobs[i];
        let op = match Operation::from_name(job.todo.as_str()) {
            Some(op) => op,
            None => unreached(),
        };
        let from = substitute(job.src.as_str(), values);
        let to = substitute(job.dst.as_str(), values);
        jobs.push(ArgsType::CmdLine { op, from, to });
        i += 1;
    }
    jobs
}

/// The jobs that a request for a definition file stands for, `json_def` being
/// what the file holds.
pub fn get_json_args(args: ArgsType, json_def: AssetRelocationDef) -> (jobs: Vec<ArgsType>)
    requires
        args is Json,
        fault_of(json_def, args->variables) is None,
    ensures
        jobs.len() == json_def.jobs.len(),
        forall|i: int|
            0 <= i < jobs.len() ==> spells_out(
                #[trigger] jobs[i],
                json_def.jobs[i],
                given(args->variables),
            ),
{
    match args {
        ArgsType::Json { json_file, variables } => map_variables(json_def, variables),
        ArgsType::CmdLine { .. } => unreached(),
    }
}

/// `text` after each pair in turn, first to last, has had its first text
/// replaced by its second.
pub open spec fn replaced_each(text: Seq<char>, pairs: Seq<(String, String)>) -> Seq<char>
    decreases pairs.len(),
{
    if pairs.len() == 0 {
        text
    } else {
        replace_all(replaced_each(text, pairs.drop_last()), pairs.last().0@, pairs.last().1@)
    }
}

/// Whether `map` holds a value for `name`.
pub open spec fn is_bound(map: Seq<(String, String)>, name: Seq<char>) -> bool {
    exists|k: int| 0 <= k < map.len() && (#[trigger] map[k]).0@ == name
}

/// Whether no name stands twice in `map`.
pub open spec fn names_are_unique(map: Seq<(String, String)>) -> bool {
    forall|a: int, b: int|
        0 <= a < b < map.len() ==> (#[trigger] map[a]).0@ != (#[trigger] map[b]).0@
}

/// Whether `names[at]` is the last place where that name stands in `names`.
pub open spec fn is_last_mention(names: Seq<String>, at: int) -> bool {
    0 <= at < names.len() && forall|j: int|
        at < j < names.len() ==> (#[trigger] names[j])@ != names[at]@
}

/// Whether `value` is the value that stands where `name` is last mentioned.
pub open spec fn is_last_value(
    names: Seq<String>,
    values: Seq<Seq<char>>,
    name: Seq<char>,
    value: Seq<char>,
) -> bool {
    exists|at: int| is_last_mention(names, at) && (#[trigger] names[at])@ == name && values[at] == value
}

/// The index in `map` of the entry for `name`, or the length of `map` where
/// there is none.
fn find_name(map: &Vec<(String, String)>, name: &String) -> (at: usize)
    ensures
        at <= map.len(),
        at < map.len() ==> map[at as int].0@ == name@,
        forall|j: int| 0 <= j < at ==> (#[trigger] map[j]).0@ != name@,
{
    let mut at: usize = 0;
    while at < map.len() && map[at].0 != *name
        invariant
            at <= map.len(),
            forall|j: int| 0 <= j < at ==> (#[trigger] map[j]).0@ != name@,
        decreases map.len() - at,
    {
        at += 1;
    }
    at
}

/// Gives each variable in use its value: the names are those of the
/// definition, the values are the pieces of `args` between `", "`, and the
/// first name gets the first piece. No name stands twice in the result: a
/// name that the definition lists twice has the value of its last mention.
pub fn map_args(json_data: &AssetRelocationDef, args: String) -> (args_map: Vec<(String, String)>)
    requires
        split_by(args@, ", "@).len() == json_data.variables_in_use.len(),
    ensures
        names_are_unique(args_map@),
        forall|k: int|
            0 <= k < args_map.len() ==> is_last_value(
                json_data.variables_in_use@,
                split_by(args@, ", "@),
                (#[trigger] args_map[k]).0@,
                args_map[k].1@,
            ),
        forall|i: int|
            0 <= i < json_data.variables_in_use.len() ==> is_bound(
                args_map@,
                (#[trigger] json_data.variables_in_use[i])@,
            ),
{
    let values = split(args.as_str(), ", ");
    let names = &json_data.variables_in_use;
    let ghost given_values = split_by(args@, ", "@);
    let mut args_map: Vec<(String, String)> = Vec::new();
    let mut i: usize = 0;
    while i < names.len()
        invariant
            i <= names.len(),
            texts(values@) == given_values,
            values.len() == names.len(),
            names_are_unique(args_map@),
            forall|k: int|
                0 <= k < args_map.len() ==> is_last_value(
                    names@.take(i as int),
                    given_values,
                    (#[trigger] args_map[k]).0@,
                    args_map[k].1@,
                ),
            forall|m: int| 0 <= m < i ==> is_bound(args_map@, (#[trigger] names[m])@),
        decreases names.len() - i,
    {
        let ghost before = args_map@;
        let ghost seen = names@.take(i as int);
        let ghost now = names@.take(i + 1);
        let at = find_name(&args_map, &names[i]);
        let name = names[i].clone();
        let value = values[i].clone();
        assert(value@ == given_values[i as int]);
        if at < args_map.len() {
            args_map.set(at, (name, value));
        } else {
            args_map.push((name, value));
        }
        proof {
            assert forall|j: int| 0 <= j < args_map.len() && j != at implies args_map@[j]
                == before[j] && (#[trigger] args_map@[j]).0@ != names[i as int]@ by {}
            assert forall|j: int| 0 <= j < args_map.len() implies is_last_value(
                now,
                given_values,
                (#[trigger] args_map@[j]).0@,
                args_map@[j].1@,
            ) by {
                if j == at {
                    assert(now[i as int] == names[i as int]);
                } else {
                    let m = choose|m: int|
                        is_last_mention(seen, m) && (#[trigger] seen[m])@ == before[j].0@
                            && given_values[m] == before[j].1@;
                    assert(is_last_mention(now, m));
                }
            }
            assert forall|m: int| 0 <= m < i + 1 implies is_bound(
                args_map@,
                (#[trigger] names[m])@,
            ) by {
                if m < i {
                    let j = choose|j: int|
                        0 <= j < before.len() && (#[trigger] before[j]).0@ == names[m]@;
                    assert(args_map@[j].0@ == names[m]@);
                } else {
                    assert(args_map@[at as int].0@ == names[m]@);
                }
            }
        }
        i += 1;
    }
    assert(names@.take(names.len() as int) == names@);
    args_map
}

/// The two paths of `job` after each name of `args_map`, in its order, has
/// been replaced by its value.
pub fn get_paths_after_replacing_args(job: &JobConfigs, args_map: &Vec<(String, String)>) -> (paths:
    (String, String))
    ensures
        paths.0@ == replaced_each(job.src@, args_map@),
        paths.1@ == replaced_each(job.dst@, args_map@),
{
    let mut src = job.src.clone();
    let mut dst = job.dst.clone();
    let mut i: usize = 0;
    while i < args_map.len()
        invariant
            i <= args_map.len(),
            src@ == replaced_each(job.src@, args_map@.take(i as int)),
            dst@ == replaced_each(job.dst@, args_map@.take(i as int)),
        decreases args_map.len() - i,
    {
        assert(args_map@.take(i + 1).drop_last() == args_map@.take(i as int));
        src = replace(src.as_str(), args_map[i].0.as_str(), args_map[i].1.as_str());
        dst = replace(dst.as_str(), args_map[i].0.as_str(), args_map[i].1.as_str());
        i += 1;
    }
    assert(args_map@.take(args_map.len() as int) == args_map@);
    (src, dst)
}

/// The jobs of a definition made ready for a Windows tool: the names replaced
/// by their values, the destination marked as a directory by a backslash at
/// its end, and both paths in Windows form.
pub fn do_jobs(json_data: &AssetRelocationDef, args_map: &Vec<(String, String)>) -> (jobs: Vec<
    JobConfigs,
>)
    ensures
        jobs.len() == json_data.jobs.len(),
        forall|i: int|
            0 <= i < jobs.len() ==> (#[trigger] jobs[i]).todo@ == json_data.jobs[i].todo@
                && jobs[i].src@ == windows_form(replaced_each(json_data.jobs[i].src@, args_map@))
                && jobs[i].dst@ == windows_form(
                replaced_each(json_data.jobs[i].dst@, args_map@).push('\\'),
            ),
{
    let mut jobs: Vec<JobConfigs> = Vec::new();
    let mut i: usize = 0;
    while i < json_data.jobs.len()
        invariant
            i <= json_data.jobs.len(),
            jobs.len() == i,
            forall|k: int|
                0 <= k < i ==> (#[trigger] jobs[k]).todo@ == json_data.jobs[k].todo@ && jobs[k].src@
                    == windows_form(replaced_each(json_data.jobs[k].src@, args_map@))
                    && jobs[k].dst@ == windows_form(
                    replaced_each(json_data.jobs[k].dst@, args_map@).push('\\'),
                ),
        decreases json_data.jobs.len() - i,
    {
        let job = &json_data.jobs[i];
        let (src, dst) = get_paths_after_replacing_args(job, args_map);
        let mut marked = to_chars(dst.as_str());
        marked.push('\\');
        let src = fix_windows_path(src);
        let dst = fix_windows_path(from_chars(&marked));
        jobs.push(JobConfigs { todo: job.todo.clone(), src, dst });
        i += 1;
    }
    jobs
}

} // verus!
