//! Whether the server says on its error stream what it does.

use vstd::prelude::*;

use crate::json::opt_text;
use crate::text::ascii_lowered;
use crate::text::chars_of;
use crate::text::has_clean_ends;
use crate::text::is_blank;
use crate::text::lemma_trimmed_core;
use crate::text::lower_chars;
use crate::text::same;
use crate::text::string_between;
use crate::text::texts;
use crate::text::trim;
use crate::text::trimmed;

verus! {

/// A setting that turns the log on: `debug` or `verbose` in any case, or `1`, with white space
/// around it or not.
pub open spec fn turns_on(setting: Seq<char>) -> bool {
    let value = trimmed(setting);
    ascii_lowered(value) == "debug"@ || ascii_lowered(value) == "verbose"@ || value == "1"@
}

/// The log is on by the setting, or by an argument `--verbose` or `-v`.
pub open spec fn is_verbose(setting: Option<Seq<char>>, args: Seq<Seq<char>>) -> bool {
    ||| setting matches Some(s) && turns_on(s)
    ||| args.contains("--verbose"@)
    ||| args.contains("-v"@)
}

/// Whether the log is on; open before it is first asked.
pub struct Log {
    pub on: Option<bool>,
}

impl View for Log {
    type V = Option<bool>;

    open spec fn view(&self) -> Option<bool> {
        self.on
    }
}

impl Log {
    /// Not asked yet.
    pub fn new() -> (r: Log)
        ensures
            r@ is None,
    {
        Log { on: None }
    }
}

/// Whether the log is on: as it was found before, else by the setting and the arguments.
pub open spec fn on_at(log: Option<bool>, setting: Option<Seq<char>>, args: Seq<Seq<char>>) -> bool {
    match log {
        Some(on) => on,
        None => is_verbose(setting, args),
    }
}

/// Whether the log is on. The first answer is kept, whatever the setting and the arguments are
/// later.
pub fn verbose(log: &mut Log, setting: Option<String>, args: &Vec<String>) -> (r: bool)
    ensures
        r == on_at(old(log)@, opt_text(setting), texts(args@)),
        final(log)@ == Some(r),
{
    let on = match log.on {
        Some(on) => on,
        None => asks_for_log(&setting, args),
    };
    log.on = Some(on);
    on
}

fn asks_for_log(setting: &Option<String>, args: &Vec<String>) -> (r: bool)
    ensures
        r == is_verbose(opt_text(*setting), texts(args@)),
{
    if let Some(s) = setting {
        let value = trim(s.as_str());
        let lower = lower_chars(&chars_of(value.as_str()));
        let folded = string_between(&lower, 0, lower.len());
        proof {
            assert(folded@ =~= ascii_lowered(value@));
        }
        if same(folded.as_str(), "debug") || same(folded.as_str(), "verbose") || same(
            value.as_str(),
            "1",
        ) {
            return true;
        }
    }
    let mut i: usize = 0;
    while i < args.len()
        invariant
            i <= args.len(),
            forall|k: int|
                0 <= k < i ==> #[trigger] texts(args@)[k] != "--verbose"@ && texts(args@)[k]
                    != "-v"@,
        decreases args.len() - i,
    {
        if same(args[i].as_str(), "--verbose") || same(args[i].as_str(), "-v") {
            proof {
                assert(texts(args@)[i as int] == args@[i as int]@);
                assert(texts(args@).contains(args@[i as int]@));
            }
            return true;
        }
        i = i + 1;
    }
    false
}

// ---------------------------------------------------------------------------
// Laws
// ---------------------------------------------------------------------------
/// The state of the log after it was asked under some settings and arguments, one after the other.
pub open spec fn log_after(
    log: Option<bool>,
    asked: Seq<(Option<Seq<char>>, Seq<Seq<char>>)>,
) -> Option<bool>
    decreases asked.len(),
{
    if asked.len() == 0 {
        log
    } else {
        Some(on_at(log_after(log, asked.drop_last()), asked.last().0, asked.last().1))
    }
}

/// Whether the log is on is fixed when it is first asked: every later answer is the first one,
/// even where the setting or the arguments have changed since.
pub proof fn lemma_log_fixed(asked: Seq<(Option<Seq<char>>, Seq<Seq<char>>)>)
    requires
        asked.len() > 0,
    ensures
        log_after(None, asked) == Some(is_verbose(asked[0].0, asked[0].1)),
    decreases asked.len(),
{
    if asked.len() > 1 {
        lemma_log_fixed(asked.drop_last());
    } else {
        assert(log_after(None, asked.drop_last()) is None);
    }
}

/// A setting turns the log on where it is one of three words, with white space around it or not:
/// two of them in either case.
pub proof fn lemma_words_that_turn_on(before: Seq<char>, word: Seq<char>, after: Seq<char>)
    requires
        is_blank(before),
        is_blank(after),
        has_clean_ends(word),
    ensures
        turns_on(before + word + after) == (ascii_lowered(word) == seq!['d', 'e', 'b', 'u', 'g']
            || ascii_lowered(word) == seq!['v', 'e', 'r', 'b', 'o', 's', 'e'] || word == seq!['1']),
{
    lemma_trimmed_core(before, word, after);
    reveal_strlit("debug");
    reveal_strlit("verbose");
    reveal_strlit("1");
    assert("debug"@ =~= seq!['d', 'e', 'b', 'u', 'g']);
    assert("verbose"@ =~= seq!['v', 'e', 'r', 'b', 'o', 's', 'e']);
    assert("1"@ =~= seq!['1']);
}

/// The log is on by the setting or by either argument, wherever it stands among the others, and
/// by nothing else.
pub proof fn lemma_log_turned_on(setting: Option<Seq<char>>, args: Seq<Seq<char>>)
    ensures
        setting matches Some(s) ==> turns_on(s) ==> is_verbose(setting, args),
        forall|i: int|
            0 <= i < args.len() && (#[trigger] args[i] == "--verbose"@ || args[i] == "-v"@)
                ==> is_verbose(setting, args),
        is_verbose(setting, args) ==> (setting is Some && turns_on(setting->0)) || (exists|i: int|
            0 <= i < args.len() && (#[trigger] args[i] == "--verbose"@ || args[i] == "-v"@)),
{
    if is_verbose(setting, args) && !(setting is Some && turns_on(setting->0)) {
        if args.contains("--verbose"@) {
            let i = args.index_of("--verbose"@);
            assert(args[i] == "--verbose"@);
        } else {
            let i = args.index_of("-v"@);
            assert(args[i] == "-v"@);
        }
    }
}

} // verus!
