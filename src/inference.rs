//! Options for a recognition run, and the accelerated-then-CPU fallback
//! policy around it.
use crate::text::{join_with, trim_str, trimmed};
use vstd::prelude::*;
use vstd::string::StringExecFns;

verus! {

/// The path a recognition attempt runs on.
#[derive(Debug, Clone, Copy, PartialEq, Eq, Structural)]
pub enum Backend {
    Accelerated,
    Cpu,
}

/// What one recognition attempt came back with.
#[derive(Debug, Clone)]
pub enum AttemptOutcome {
    /// The attempt failed with this message.
    Failed(String),
    /// The attempt succeeded with this text, made of `segments` segments.
    Succeeded { text: String, segments: u32 },
}

/// What to do after an attempt.
#[derive(Debug)]
pub enum FallbackStep {
    /// Run again on the CPU.
    RetryOnCpu,
    /// Report this result, produced on this path.
    Finish(Result<String, String>, Backend),
}

/// The result an outcome stands for.
pub open spec fn outcome_result(o: AttemptOutcome) -> Result<String, String> {
    match o {
        AttemptOutcome::Failed(e) => Err(e),
        AttemptOutcome::Succeeded { text, .. } => Ok(text),
    }
}

/// The fallback policy: an accelerated attempt that fails, or succeeds with
/// no segment at all, is retried on the CPU; a CPU attempt is final.
pub open spec fn next_step(attempt: Backend, o: AttemptOutcome) -> FallbackStep {
    match attempt {
        Backend::Accelerated => match o {
            AttemptOutcome::Succeeded { text, segments } => if segments == 0 {
                FallbackStep::RetryOnCpu
            } else {
                FallbackStep::Finish(Ok(text), Backend::Accelerated)
            },
            AttemptOutcome::Failed(_) => FallbackStep::RetryOnCpu,
        },
        Backend::Cpu => FallbackStep::Finish(outcome_result(o), Backend::Cpu),
    }
}

/// Decides what follows an attempt on `attempt` that came back with `outcome`.
pub fn fallback_step(attempt: Backend, outcome: AttemptOutcome) -> (r: FallbackStep)
    ensures
        r == next_step(attempt, outcome),
{
    match attempt {
        Backend::Accelerated => match outcome {
            AttemptOutcome::Succeeded { text, segments } => {
                if segments == 0 {
                    FallbackStep::RetryOnCpu
                } else {
                    FallbackStep::Finish(Ok(text), Backend::Accelerated)
                }
            },
            AttemptOutcome::Failed(_) => FallbackStep::RetryOnCpu,
        },
        Backend::Cpu => match outcome {
            AttemptOutcome::Failed(e) => FallbackStep::Finish(Err(e), Backend::Cpu),
            AttemptOutcome::Succeeded { text, .. } => FallbackStep::Finish(Ok(text), Backend::Cpu),
        },
    }
}

/// What a run with fallback reports, given what each attempt returns: the
/// result, the path that produced it, and how many attempts were made.
pub open spec fn fallback_result(accelerated: AttemptOutcome, cpu: AttemptOutcome) -> (
    Result<String, String>,
    Backend,
    u8,
) {
    match next_step(Backend::Accelerated, accelerated) {
        FallbackStep::Finish(res, b) => (res, b, 1),
        FallbackStep::RetryOnCpu => (outcome_result(cpu), Backend::Cpu, 2),
    }
}

/// Runs `accelerated`, then `cpu` when the policy asks for it, and reports
/// the final result, the path that produced it and the number of attempts.
pub fn run_with_fallback<A: FnOnce() -> AttemptOutcome, C: FnOnce() -> AttemptOutcome>(
    accelerated: A,
    cpu: C,
) -> (r: (Result<String, String>, Backend, u8))
    requires
        accelerated.requires(()),
        cpu.requires(()),
    ensures
        exists|a: AttemptOutcome| #[trigger]
            accelerated.ensures((), a) && match next_step(Backend::Accelerated, a) {
                FallbackStep::Finish(res, b) => r == (res, b, 1u8),
                FallbackStep::RetryOnCpu => exists|c: AttemptOutcome| #[trigger]
                    cpu.ensures((), c) && r == fallback_result(a, c),
            },
{
    let first = accelerated();
    let ghost a = first;
    match fallback_step(Backend::Accelerated, first) {
        FallbackStep::Finish(res, b) => (res, b, 1),
        FallbackStep::RetryOnCpu => {
            let second = cpu();
            let ghost c = second;
            let step = fallback_step(Backend::Cpu, second);
            match step {
                FallbackStep::Finish(res, b) => {
                    assert(cpu.ensures((), c) && (res, b, 2u8) == fallback_result(a, c));
                    (res, b, 2)
                },
                FallbackStep::RetryOnCpu => {
                    assert(false);
                    (Err(String::new()), Backend::Cpu, 2)
                },
            }
        },
    }
}

/// An accelerated run that succeeds with no segment is retried on the CPU:
/// the CPU attempt's result is what is reported, after two attempts.
pub proof fn empty_accelerated_result_retried(text: String, cpu: AttemptOutcome)
    ensures
        next_step(Backend::Accelerated, AttemptOutcome::Succeeded { text, segments: 0 })
            == FallbackStep::RetryOnCpu,
        fallback_result(AttemptOutcome::Succeeded { text, segments: 0 }, cpu)
            == (outcome_result(cpu), Backend::Cpu, 2u8),
{
}

/// How the recognition language is chosen.
#[derive(Debug, Clone, PartialEq, Eq)]
pub enum LanguageMode {
    /// The backend's default language.
    Default,
    /// The backend detects the language.
    Detect,
    /// This language code is forced.
    Fixed(String),
}

/// Whether `c` is the ASCII letter given in lower case `lower`, in either case.
pub open spec fn same_letter(c: char, lower: char, upper: char) -> bool {
    c == lower || c == upper
}

/// Whether `s` spells "auto" in any ASCII case.
pub open spec fn is_auto_word(s: Seq<char>) -> bool {
    &&& s.len() == 4
    &&& same_letter(s[0], 'a', 'A')
    &&& same_letter(s[1], 'u', 'U')
    &&& same_letter(s[2], 't', 'T')
    &&& same_letter(s[3], 'o', 'O')
}

/// Picks the language mode from a trimmed language option: absent or empty
/// means the default, "auto" in any ASCII case means detection, anything
/// else is forced.
pub fn language_mode_from_trimmed(language: Option<&str>) -> (r: LanguageMode)
    ensures
        match language {
            None => r == LanguageMode::Default,
            Some(l) => if l@.len() == 0 {
                r == LanguageMode::Default
            } else if is_auto_word(l@) {
                r == LanguageMode::Detect
            } else {
                (r matches LanguageMode::Fixed(code) && code@ == l@)
            },
        },
{
    match language {
        None => LanguageMode::Default,
        Some(l) => {
            let n = l.unicode_len();
            if n == 0 {
                LanguageMode::Default
            } else if n == 4 && {
                let (c0, c1, c2, c3) = (l.get_char(0), l.get_char(1), l.get_char(2), l.get_char(3));
                (c0 == 'a' || c0 == 'A') && (c1 == 'u' || c1 == 'U') && (c2 == 't' || c2 == 'T')
                    && (c3 == 'o' || c3 == 'O')
            } {
                LanguageMode::Detect
            } else {
                LanguageMode::Fixed(l.to_owned())
            }
        },
    }
}

/// The language mode for a language option, trimmed first.
pub fn language_mode(language: Option<&str>) -> (r: LanguageMode)
    ensures
        match language {
            None => r == LanguageMode::Default,
            Some(l) => if trimmed(l@).len() == 0 {
                r == LanguageMode::Default
            } else if is_auto_word(trimmed(l@)) {
                r == LanguageMode::Detect
            } else {
                (r matches LanguageMode::Fixed(code) && code@ == trimmed(l@))
            },
        },
{
    match language {
        None => LanguageMode::Default,
        Some(l) => language_mode_from_trimmed(Some(trim_str(l))),
    }
}

/// An already trimmed prompt, or none when it is empty.
pub fn prompt_from_trimmed(t: &str) -> (r: Option<String>)
    ensures
        t@.len() == 0 ==> r is None,
        t@.len() > 0 ==> (r matches Some(p) && p@ == t@),
{
    if t.unicode_len() == 0 {
        None
    } else {
        Some(t.to_owned())
    }
}

/// The vocabulary prompt option, trimmed; an empty one counts as none.
pub fn normalize_prompt(prompt: Option<&str>) -> (r: Option<String>)
    ensures
        match prompt {
            None => r is None,
            Some(p) => if trimmed(p@).len() == 0 {
                r is None
            } else {
                (r matches Some(q) && q@ == trimmed(p@))
            },
        },
{
    match prompt {
        None => None,
        Some(p) => prompt_from_trimmed(trim_str(p)),
    }
}

/// The non-empty words among `words`, in order.
pub open spec fn nonempty_words(words: Seq<Seq<char>>) -> Seq<Seq<char>> {
    words.filter(|w: Seq<char>| w.len() > 0)
}

/// The prompt built from already trimmed vocabulary words: none when no word
/// is left, else the words after "Vocabulary: ", separated by ", ".
pub open spec fn vocabulary_prompt_of(words: Seq<Seq<char>>) -> Option<Seq<char>> {
    let kept = nonempty_words(words);
    if kept.len() == 0 {
        None
    } else {
        Some("Vocabulary: "@ + join_with(kept, ", "@))
    }
}

/// The views of a list of strings.
pub open spec fn string_views(v: Seq<String>) -> Seq<Seq<char>> {
    v.map_values(|s: String| s@)
}

/// Builds the vocabulary prompt from already trimmed words.
pub fn vocabulary_prompt_from_trimmed(words: &Vec<String>) -> (r: Option<String>)
    ensures
        match vocabulary_prompt_of(string_views(words@)) {
            None => r is None,
            Some(p) => (r matches Some(q) && q@ == p),
        },
{
    let ghost pred = |w: Seq<char>| w.len() > 0;
    let ghost views = string_views(words@);
    let mut joined = String::new();
    let mut count: usize = 0;
    let mut i: usize = 0;
    while i < words.len()
        invariant
            i <= words@.len(),
            views == string_views(words@),
            pred == (|w: Seq<char>| w.len() > 0),
            count == views.subrange(0, i as int).filter(pred).len(),
            joined@ == join_with(views.subrange(0, i as int).filter(pred), ", "@),
        decreases words.len() - i,
    {
        let w = &words[i];
        proof {
            assert(views.subrange(0, i as int + 1) =~= views.subrange(0, i as int).push(w@));
            views.subrange(0, i as int).lemma_filter_push(w@, pred);
        }
        if w.unicode_len() > 0 {
            let ghost before = views.subrange(0, i as int).filter(pred);
            if count > 0 {
                joined.append(", ");
            }
            joined.append(w.as_str());
            proof {
                let after = before.push(w@);
                assert(after.drop_last() =~= before);
                if count == 0 {
                    assert(joined@ =~= join_with(after, ", "@));
                }
            }
            count = count + 1;
        }
        i = i + 1;
    }
    assert(views.subrange(0, words@.len() as int) =~= views);
    if count == 0 {
        None
    } else {
        let mut prompt = String::new();
        prompt.append("Vocabulary: ");
        prompt.append(joined.as_str());
        assert(prompt@ =~= "Vocabulary: "@ + joined@);
        Some(prompt)
    }
}

/// Builds the vocabulary prompt from configured words, each trimmed first.
pub fn vocabulary_prompt(vocabulary: &Vec<String>) -> (r: Option<String>)
    ensures
        match vocabulary_prompt_of(string_views(vocabulary@).map_values(|w: Seq<char>| trimmed(w))) {
            None => r is None,
            Some(p) => (r matches Some(q) && q@ == p),
        },
{
    let mut words: Vec<String> = Vec::new();
    let mut i: usize = 0;
    while i < vocabulary.len()
        invariant
            i <= vocabulary@.len(),
            string_views(words@) == string_views(vocabulary@).map_values(|w: Seq<char>| trimmed(w)).subrange(0, i as int),
        decreases vocabulary.len() - i,
    {
        let t = trim_str(vocabulary[i].as_str());
        let owned = t.to_owned();
        let ghost prev = words@;
        words.push(owned);
        proof {
            let target = string_views(vocabulary@).map_values(|w: Seq<char>| trimmed(w));
            assert(owned@ == trimmed(vocabulary@[i as int]@));
            assert(target[i as int] == trimmed(string_views(vocabulary@)[i as int]));
            assert(string_views(prev).len() == i);
            assert(prev.len() == i);
            assert(words@ == prev.push(owned));
            assert(words@[i as int] == owned);
            assert(string_views(words@)[i as int] == owned@);
        }
        assert(string_views(words@) =~= string_views(vocabulary@).map_values(|w: Seq<char>| trimmed(w)).subrange(0, i as int + 1));
        i = i + 1;
    }
    assert(string_views(vocabulary@).map_values(|w: Seq<char>| trimmed(w)).subrange(0, vocabulary@.len() as int) =~= string_views(vocabulary@).map_values(|w: Seq<char>| trimmed(w)));
    vocabulary_prompt_from_trimmed(&words)
}

} // verus!
