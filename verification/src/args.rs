use vstd::prelude::*;

verus! {

/// Command-line options of the game.
pub struct Args {
    pub word: Option<String>,
    pub random: bool,
    pub difficult: bool,
    pub stats: bool,
    pub day: Option<u32>,
    pub seed: Option<u64>,
    pub final_set: Option<String>,
    pub acceptable_set: Option<String>,
    pub state: Option<String>,
    pub config: Option<String>,
    pub tui: bool,
}

/// Options read from a configuration file; each may be left out.
pub struct ConfigFile {
    pub random: Option<bool>,
    pub difficult: Option<bool>,
    pub stats: Option<bool>,
    pub day: Option<u32>,
    pub seed: Option<u64>,
    pub final_set: Option<String>,
    pub acceptable_set: Option<String>,
    pub state: Option<String>,
    pub word: Option<String>,
    pub tui: Option<bool>,
}

/// A switch after merging: a switch already on stays on, otherwise the file decides if it says.
pub open spec fn merged_flag(arg: bool, file: Option<bool>) -> bool {
    if !arg && file is Some {
        file->0
    } else {
        arg
    }
}

/// A value after merging: the command line's value if given, else the file's.
pub open spec fn merged_value<T>(arg: Option<T>, file: Option<T>) -> Option<T> {
    if arg is None {
        file
    } else {
        arg
    }
}

/// Merging the same file twice changes nothing the second time, and a value
/// given on the command line is never replaced.
pub proof fn lemma_merge_idempotent<T>(arg: Option<T>, file: Option<T>, flag: bool, file_flag: Option<bool>)
    ensures
        merged_value(merged_value(arg, file), file) == merged_value(arg, file),
        merged_flag(merged_flag(flag, file_flag), file_flag) == merged_flag(flag, file_flag),
        arg is Some ==> merged_value(arg, file) == arg,
        flag ==> merged_flag(flag, file_flag),
{
}

fn merge_flag(arg: bool, file: Option<bool>) -> (r: bool)
    ensures
        r == merged_flag(arg, file),
{
    if file.is_some() && !arg {
        file.unwrap()
    } else {
        arg
    }
}

fn merge_text(arg: &mut Option<String>, file: &Option<String>)
    ensures
        *final(arg) == merged_value(*old(arg), *file),
{
    if file.is_some() && arg.is_none() {
        *arg = copy_text(file);
    }
}

fn copy_text(o: &Option<String>) -> (r: Option<String>)
    ensures
        r == *o,
{
    match o {
        Some(s) => Some(s.clone()),
        None => None,
    }
}

/// Fills in from the configuration file what the command line left unset:
/// command-line values take precedence.
pub fn merge_config(args: &mut Args, config: &ConfigFile)
    ensures
        final(args).random == merged_flag(old(args).random, config.random),
        final(args).difficult == merged_flag(old(args).difficult, config.difficult),
        final(args).stats == merged_flag(old(args).stats, config.stats),
        final(args).tui == merged_flag(old(args).tui, config.tui),
        final(args).day == merged_value(old(args).day, config.day),
        final(args).seed == merged_value(old(args).seed, config.seed),
        final(args).final_set == merged_value(old(args).final_set, config.final_set),
        final(args).acceptable_set == merged_value(old(args).acceptable_set, config.acceptable_set),
        final(args).state == merged_value(old(args).state, config.state),
        final(args).word == merged_value(old(args).word, config.word),
        final(args).config == old(args).config,
{
    args.random = merge_flag(args.random, config.random);
    args.difficult = merge_flag(args.difficult, config.difficult);
    args.stats = merge_flag(args.stats, config.stats);
    if config.day.is_some() && args.day.is_none() {
        args.day = config.day;
    }
    if config.seed.is_some() && args.seed.is_none() {
        args.seed = config.seed;
    }
    merge_text(&mut args.final_set, &config.final_set);
    merge_text(&mut args.acceptable_set, &config.acceptable_set);
    merge_text(&mut args.state, &config.state);
    merge_text(&mut args.word, &config.word);
    args.tui = merge_flag(args.tui, config.tui);
}

} // verus!
