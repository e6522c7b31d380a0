//! The rule-based reward of the language-model pipeline: a completion is right
//! if its last integer is the expected answer.
use vstd::prelude::*;
use vstd::string::*;

use crate::error::{Error, ErrorModel};
use crate::ids::{object_id_read, read_view, ObjectId};

verus! {

/// A completion for the problem with this seed.
#[derive(Debug)]
pub struct LlmRollout {
    pub seed: u64,
    pub completion: String,
}

/// The two numbers that the problem with this seed asks to add.
pub fn llm_problem(seed: u64) -> (r: (u64, u64))
    ensures
        r.0 == 50 + (seed as int / 256) % 900,
        r.1 == 50 + seed as int % 900,
{
    assert(seed >> 8 == seed / 256) by (bit_vector);
    (50 + (seed >> 8) % 900, 50 + seed % 900)
}

pub open spec fn is_digit(c: char) -> bool {
    '0' <= c && c <= '9'
}

/// A character that can stand in a number.
pub open spec fn is_number_char(c: char) -> bool {
    is_digit(c) || c == '-'
}

/// How many characters of a number end the text.
pub open spec fn run_len(text: Seq<char>) -> nat
    decreases text.len(),
{
    if text.len() == 0 || !is_number_char(text.last()) {
        0
    } else {
        1 + run_len(text.drop_last())
    }
}

pub open spec fn has_digit(text: Seq<char>) -> bool {
    exists|i: int| 0 <= i < text.len() && is_digit(#[trigger] text[i])
}

/// The last run of digits and hyphens that has a digit and is shorter than
/// twelve characters.
pub open spec fn last_run(text: Seq<char>) -> Option<Seq<char>>
    decreases text.len(),
{
    let n = run_len(text);
    let run = text.skip(text.len() - n);
    if n < 12 && has_digit(run) {
        Some(run)
    } else if n >= text.len() {
        None
    } else {
        last_run(text.take(text.len() - n - 1))
    }
}

/// A text without the hyphens that it starts with.
pub open spec fn without_hyphens(text: Seq<char>) -> Seq<char>
    decreases text.len(),
{
    if text.len() > 0 && text[0] == '-' {
        without_hyphens(text.drop_first())
    } else {
        text
    }
}

/// The value of a row of decimal digits.
pub open spec fn decimal_value(digits: Seq<char>) -> int
    decreases digits.len(),
{
    if digits.len() == 0 {
        0
    } else {
        10 * decimal_value(digits.drop_last()) + (digits.last() as int - '0' as int)
    }
}

/// The number that a run spells: digits, negative if hyphens precede them. A
/// hyphen among the digits makes it no number.
pub open spec fn run_value(run: Seq<char>) -> Option<int> {
    let digits = without_hyphens(run);
    if forall|i: int| 0 <= i < digits.len() ==> is_digit(#[trigger] digits[i]) {
        Some(
            if run.len() > 0 && run[0] == '-' {
                -decimal_value(digits)
            } else {
                decimal_value(digits)
            },
        )
    } else {
        None
    }
}

/// The last integer of a text, with commas between digits ignored.
pub open spec fn integer_in(text: Seq<char>) -> Option<int> {
    match last_run(text.filter(|c: char| c != ',')) {
        Some(run) => run_value(run),
        None => None,
    }
}

fn number_char(c: char) -> (r: bool)
    ensures
        r == is_number_char(c),
{
    ('0' <= c && c <= '9') || c == '-'
}

proof fn lemma_run_len(text: Seq<char>, start: int)
    requires
        0 <= start <= text.len(),
        forall|i: int| start <= i < text.len() ==> is_number_char(#[trigger] text[i]),
        start > 0 ==> !is_number_char(text[start - 1]),
    ensures
        run_len(text) == text.len() - start,
    decreases text.len(),
{
    if start < text.len() {
        assert(is_number_char(text[text.len() - 1]));
        lemma_run_len(text.drop_last(), start);
    }
}

/// Reads the run `chars[start..end]`, which has at most eleven characters.
fn read_run(chars: &Vec<char>, start: usize, end: usize) -> (r: Option<i64>)
    requires
        start < end <= chars@.len(),
        end - start < 12,
    ensures
        match r {
            Some(value) => run_value(chars@.subrange(start as int, end as int)) == Some(value as int),
            None => run_value(chars@.subrange(start as int, end as int)) is None,
        },
{
    let ghost run = chars@.subrange(start as int, end as int);
    let mut first: usize = start;
    while first < end && chars[first] == '-'
        invariant
            start <= first <= end <= chars@.len(),
            without_hyphens(run) == without_hyphens(chars@.subrange(first as int, end as int)),
            run == chars@.subrange(start as int, end as int),
        decreases end - first,
    {
        assert(chars@.subrange(first as int, end as int).drop_first() =~= chars@.subrange(first + 1, end as int));
        first += 1;
    }
    let ghost digits = chars@.subrange(first as int, end as int);
    assert(without_hyphens(run) == digits);
    let mut value: i64 = 0;
    let mut limit: i64 = 1;
    let mut i: usize = first;
    while i < end
        invariant
            start <= first <= i <= end <= chars@.len(),
            end - first < 12,
            run == chars@.subrange(start as int, end as int),
            digits == chars@.subrange(first as int, end as int),
            without_hyphens(run) == digits,
            forall|j: int| 0 <= j < i - first ==> is_digit(#[trigger] digits[j]),
            value == decimal_value(digits.take(i - first)),
            0 <= value < limit,
            limit == power_of_ten(i - first),
        decreases end - i,
    {
        let c = chars[i];
        assert(digits[i - first] == c);
        if !('0' <= c && c <= '9') {
            assert(!is_digit(digits[i - first]));
            return None;
        }
        proof {
            assert(digits.take(i + 1 - first).drop_last() =~= digits.take(i - first));
            lemma_power_of_ten(i - first);
        }
        value = value * 10 + (c as u32 - '0' as u32) as i64;
        limit = limit * 10;
        i += 1;
    }
    assert(digits.take(i - first) =~= digits);
    proof {
        lemma_power_of_ten(i - first);
    }
    if chars[start] == '-' {
        Some(-value)
    } else {
        Some(value)
    }
}

spec fn power_of_ten(n: int) -> int
    decreases n,
{
    if n <= 0 {
        1
    } else {
        10 * power_of_ten(n - 1)
    }
}

proof fn lemma_power_of_ten(n: int)
    requires
        0 <= n < 12,
    ensures
        1 <= power_of_ten(n) <= 100_000_000_000,
{
    reveal_with_fuel(power_of_ten, 13);
}

/// The last integer in a text. Commas are dropped first, so that grouped digits
/// read as one number.
pub fn last_integer(text: &str) -> (r: Option<i64>)
    ensures
        match r {
            Some(value) => integer_in(text@) == Some(value as int),
            None => integer_in(text@) is None,
        },
{
    let mut chars: Vec<char> = Vec::new();
    let ghost keep = |c: char| c != ',';
    assert(text@.take(0).filter(keep) =~= Seq::<char>::empty()) by {
        reveal(Seq::filter);
    }
    for c in iter: text.chars()
        invariant
            iter.seq() == text@,
            keep == (|c: char| c != ','),
            chars@ == text@.take(iter.index()).filter(keep),
    {
        proof {
            let at = iter.index();
            assert(text@.take(at + 1).drop_last() =~= text@.take(at));
            assert(text@.take(at + 1).last() == c);
            reveal(Seq::filter);
        }
        if c != ',' {
            chars.push(c);
        }
    }
    assert(text@.take(text@.len() as int) =~= text@);
    let ghost kept = chars@;
    let mut end: usize = chars.len();
    assert(kept.take(end as int) =~= kept);
    loop
        invariant
            kept == chars@,
            kept == text@.filter(|c: char| c != ','),
            end <= chars@.len(),
            last_run(kept) == last_run(kept.take(end as int)),
        decreases end,
    {
        let ghost prefix = kept.take(end as int);
        let mut start: usize = end;
        let mut digit = false;
        while start > 0 && number_char(chars[start - 1])
            invariant
                start <= end <= chars@.len(),
                kept == chars@,
                prefix == kept.take(end as int),
                forall|i: int| start <= i < end ==> is_number_char(#[trigger] prefix[i]),
                digit <==> exists|i: int| start <= i < end && is_digit(#[trigger] prefix[i]),
            decreases start,
        {
            start = start - 1;
            assert(prefix[start as int] == chars@[start as int]);
            if '0' <= chars[start] && chars[start] <= '9' {
                digit = true;
            }
        }
        proof {
            if start > 0 {
                assert(prefix[start - 1] == chars@[start - 1]);
            }
            lemma_run_len(prefix, start as int);
            let run = prefix.skip(start as int);
            assert(run =~= chars@.subrange(start as int, end as int));
            if digit {
                let i = choose|i: int| start <= i < end && is_digit(#[trigger] prefix[i]);
                assert(is_digit(run[i - start]));
            }
            if has_digit(run) {
                let i = choose|i: int| 0 <= i < run.len() && is_digit(#[trigger] run[i]);
                assert(is_digit(prefix[i + start]));
            }
        }
        if digit && end - start < 12 {
            return read_run(&chars, start, end);
        }
        if start == 0 {
            return None;
        }
        assert(prefix.take(start - 1) =~= kept.take(start - 1));
        end = start - 1;
    }
}

/// The expected answer for a seed: the last that is listed for it.
pub open spec fn gold(golds: Seq<(u64, i64)>, seed: u64) -> Option<int>
    decreases golds.len(),
{
    if golds.len() == 0 {
        None
    } else if golds.last().0 == seed {
        Some(golds.last().1 as int)
    } else {
        gold(golds.drop_last(), seed)
    }
}

/// The expected answer for a seed: from the list, if there is one, and otherwise
/// the sum that the seed's problem asks for.
pub open spec fn expected(golds: Option<Seq<(u64, i64)>>, seed: u64) -> Option<int> {
    match golds {
        Some(list) => gold(list, seed),
        None => Some(100 + (seed as int / 256) % 900 + seed as int % 900),
    }
}

/// The view of an optional list of answers.
pub open spec fn listed(golds: Option<Vec<(u64, i64)>>) -> Option<Seq<(u64, i64)>> {
    match golds {
        Some(list) => Some(list@),
        None => None,
    }
}

fn find_gold(golds: &Vec<(u64, i64)>, seed: u64) -> (r: Option<i64>)
    ensures
        match r {
            Some(answer) => gold(golds@, seed) == Some(answer as int),
            None => gold(golds@, seed) is None,
        },
{
    let mut i: usize = golds.len();
    assert(golds@.take(i as int) =~= golds@);
    while i > 0
        invariant
            i <= golds@.len(),
            gold(golds@, seed) == gold(golds@.take(i as int), seed),
        decreases i,
    {
        assert(golds@.take(i as int).drop_last() =~= golds@.take(i - 1));
        if golds[i - 1].0 == seed {
            return Some(golds[i - 1].1);
        }
        i -= 1;
    }
    None
}

/// Each completion is right if its last integer is the expected answer.
pub open spec fn judged(rollouts: Seq<LlmRollout>, golds: Option<Seq<(u64, i64)>>, rewards: Seq<bool>) -> bool {
    &&& rewards.len() == rollouts.len()
    &&& forall|i: int|
        0 <= i < rewards.len() ==> (#[trigger] rewards[i] <==> integer_in(rollouts[i].completion@) == expected(
            golds,
            rollouts[i].seed,
        ))
}

/// Whether each completion's last integer is the expected answer. Without a list
/// of answers the problem follows from the seed. A completion without an integer
/// is right if no answer is listed for its seed.
pub fn judge(rollouts: &Vec<LlmRollout>, golds: Option<Vec<(u64, i64)>>) -> (r: Vec<bool>)
    ensures
        judged(rollouts@, listed(golds), r@),
{
    let mut r: Vec<bool> = Vec::new();
    let mut i: usize = 0;
    while i < rollouts.len()
        invariant
            i <= rollouts@.len(),
            r@.len() == i,
            forall|j: int|
                0 <= j < i ==> (#[trigger] r@[j] <==> integer_in(rollouts@[j].completion@) == expected(
                    listed(golds),
                    rollouts@[j].seed,
                )),
        decreases rollouts@.len() - i,
    {
        let seed: u64 = rollouts[i].seed;
        let answer: Option<i64> = match &golds {
            Some(list) => find_gold(list, seed),
            None => {
                let (a, b) = llm_problem(seed);
                Some((a + b) as i64)
            },
        };
        let found: Option<i64> = last_integer(rollouts[i].completion.as_str());
        let right = match (found, answer) {
            (Some(x), Some(y)) => x == y,
            (None, None) => true,
            _ => false,
        };
        r.push(right);
        i += 1;
    }
    r
}

/// What `serde_json::from_slice` makes of a list of seeds and answers: the list, or
/// the message of its error.
pub uninterp spec fn golds_parsed(bytes: Seq<u8>) -> Result<Seq<(u64, i64)>, Seq<char>>;

pub open spec fn golds_view(parsed: Result<Vec<(u64, i64)>, String>) -> Result<Seq<(u64, i64)>, Seq<char>> {
    match parsed {
        Ok(list) => Ok(list@),
        Err(message) => Err(message@),
    }
}

/// `serde_json::from_slice` for a list of pairs of numbers: whether the bytes are
/// one, which, and what is said of them if they are not depends on the bytes alone.
#[verifier::external_body]
fn parse_golds(bytes: &[u8]) -> (r: Result<Vec<(u64, i64)>, String>)
    ensures
        golds_parsed(bytes@) == golds_view(r),
{
    serde_json::from_slice::<Vec<(u64, i64)>>(bytes).map_err(|error| error.to_string())
}

/// The answers for `llm.judge`, from what became of the list if one was given.
pub open spec fn golds_given(parsed: Option<Result<Seq<(u64, i64)>, Seq<char>>>) -> Result<
    Option<Seq<(u64, i64)>>,
    ErrorModel,
> {
    match parsed {
        None => Ok(None),
        Some(Ok(list)) => Ok(Some(list)),
        Some(Err(message)) => Err(ErrorModel::Protocol("llm.judge golds: "@ + message)),
    }
}

/// Takes in what became of the list of answers, if one was given.
pub fn take_golds(parsed: Option<Result<Vec<(u64, i64)>, String>>) -> (r: Result<Option<Vec<(u64, i64)>>, Error>)
    ensures
        ({
            let given = golds_given(
                match parsed {
                    Some(parsed) => Some(golds_view(parsed)),
                    None => None,
                },
            );
            match r {
                Ok(golds) => given == Ok::<Option<Seq<(u64, i64)>>, ErrorModel>(listed(golds)),
                Err(error) => given == Err::<Option<Seq<(u64, i64)>>, ErrorModel>(error@),
            }
        }),
{
    match parsed {
        None => Ok(None),
        Some(Ok(list)) => Ok(Some(list)),
        Some(Err(fault)) => {
            let mut message = "llm.judge golds: ".to_string();
            message.append(fault.as_str());
            Err(Error::Protocol(message))
        },
    }
}

/// The answers that `llm.judge` is given beside the completions, if any.
pub fn judge_golds(args: &Vec<Vec<u8>>) -> (r: Result<Option<Vec<(u64, i64)>>, Error>)
    ensures
        if args@.len() == 0 || args@.len() > 2 {
            r matches Err(error) && error@ == ErrorModel::Protocol("llm.judge expects [rollouts, golds?]"@)
        } else if args@.len() == 1 {
            r == Ok::<Option<Vec<(u64, i64)>>, Error>(None)
        } else {
            match golds_parsed(args@[1]@) {
                Ok(list) => r matches Ok(Some(golds)) && golds@ == list,
                Err(message) => r matches Err(error) && error@ == ErrorModel::Protocol(
                    "llm.judge golds: "@ + message,
                ),
            }
        },
{
    if args.len() == 0 || args.len() > 2 {
        return Err(Error::Protocol("llm.judge expects [rollouts, golds?]".to_string()));
    }
    if args.len() == 1 {
        return take_golds(None);
    }
    take_golds(Some(parse_golds(args[1].as_slice())))
}

/// What `llm.judge` answers: for each completion whether it is right, given what
/// became of the first argument, which holds the completions.
pub fn judge_answer(args: &Vec<Vec<u8>>, rollouts: Result<Vec<LlmRollout>, String>) -> (r: Result<Vec<bool>, Error>)
    ensures
        if args@.len() == 0 || args@.len() > 2 {
            r matches Err(error) && error@ == ErrorModel::Protocol("llm.judge expects [rollouts, golds?]"@)
        } else {
            match rollouts {
                Err(message) => r matches Err(error) && error@ == ErrorModel::Protocol(
                    "llm.judge input: "@ + message@,
                ),
                Ok(rollouts) => match golds_given(
                    if args@.len() == 2 {
                        Some(golds_parsed(args@[1]@))
                    } else {
                        None
                    },
                ) {
                    Err(fault) => r matches Err(error) && error@ == fault,
                    Ok(golds) => r matches Ok(rewards) && judged(rollouts@, golds, rewards@),
                },
            }
        },
{
    if args.len() == 0 || args.len() > 2 {
        return Err(Error::Protocol("llm.judge expects [rollouts, golds?]".to_string()));
    }
    let rollouts = match rollouts {
        Ok(rollouts) => rollouts,
        Err(fault) => {
            let mut message = "llm.judge input: ".to_string();
            message.append(fault.as_str());
            return Err(Error::Protocol(message));
        },
    };
    match judge_golds(args) {
        Ok(golds) => Ok(judge(&rollouts, golds)),
        Err(error) => Err(error),
    }
}

/// Whether the model has to be loaded before a rollout: weights are named, and
/// their version is not the one that is loaded.
pub fn weights_are_stale(weights: &str, version: u64, loaded: u64) -> (r: bool)
    ensures
        r == (weights@.len() > 0 && version != loaded),
{
    weights.unicode_len() > 0 && version != loaded
}

/// The weights to load before a rollout, if any: those that are named, where they
/// are not the ones that are loaded.
pub fn weights_to_load(weights: &str, version: u64, loaded: u64) -> (r: Result<Option<ObjectId>, Error>)
    ensures
        if weights@.len() == 0 || version == loaded {
            r == Ok::<Option<ObjectId>, Error>(None)
        } else {
            exists|read: Result<ObjectId, Seq<char>>| #[trigger]
                object_id_read(weights.spec_bytes(), read) && match read {
                    Ok(id) => r == Ok::<Option<ObjectId>, Error>(Some(id)),
                    Err(message) => r matches Err(error) && error@ == ErrorModel::Protocol(
                        "llm.rollout weights id: "@ + message,
                    ),
                }
        },
{
    if !weights_are_stale(weights, version, loaded) {
        return Ok(None);
    }
    let read = ObjectId::parse(weights);
    assert(object_id_read(weights.spec_bytes(), read_view(read)));
    match read {
        Ok(id) => Ok(Some(id)),
        Err(fault) => {
            let mut message = "llm.rollout weights id: ".to_string();
            message.append(fault.as_str());
            Err(Error::Protocol(message))
        },
    }
}

/// The one argument of `llm.rollout`.
pub fn model_rollout_input(args: Vec<Vec<u8>>) -> (r: Result<Vec<u8>, Error>)
    ensures
        if args@.len() == 1 {
            r == Ok::<Vec<u8>, Error>(args@[0])
        } else {
            r matches Err(error) && error@ == ErrorModel::Protocol("llm.rollout expects [config]"@)
        },
{
    let mut args = args;
    if args.len() != 1 {
        return Err(Error::Protocol("llm.rollout expects [config]".to_string()));
    }
    Ok(args.remove(0))
}

/// Puts each completion with the seed that it is for.
pub fn pair_rollouts(seeds: &Vec<u64>, completions: Vec<String>) -> (r: Vec<LlmRollout>)
    ensures
        r@.len() == if seeds@.len() < completions@.len() {
            seeds@.len()
        } else {
            completions@.len()
        },
        forall|i: int|
            0 <= i < r@.len() ==> (#[trigger] r@[i]).seed == seeds@[i] && r@[i].completion@ == completions@[i]@,
{
    let mut r: Vec<LlmRollout> = Vec::new();
    let mut i: usize = 0;
    while i < seeds.len() && i < completions.len()
        invariant
            i <= seeds@.len(),
            i <= completions@.len(),
            r@.len() == i,
            forall|j: int|
                0 <= j < i ==> (#[trigger] r@[j]).seed == seeds@[j] && r@[j].completion@ == completions@[j]@,
        decreases seeds@.len() - i,
    {
        r.push(LlmRollout { seed: seeds[i], completion: completions[i].clone() });
        i += 1;
    }
    r
}

/// The problem of a seed has two terms from 50 to 949, and its answer is their sum.
pub proof fn law_problem_has_its_sum_as_answer(seed: u64, terms: (u64, u64))
    requires
        call_ensures(llm_problem, (seed,), terms),
    ensures
        50 <= terms.0 < 950,
        50 <= terms.1 < 950,
        expected(None, seed) == Some(terms.0 + terms.1),
{
}

/// The answer to a seed is the last that is listed for it, where answers are listed.
pub proof fn law_last_listed_answer_counts(golds: Seq<(u64, i64)>, i: int, seed: u64)
    ensures
        0 <= i < golds.len() && (forall|j: int| i < j < golds.len() ==> (#[trigger] golds[j]).0 != golds[i].0) ==> gold(
            golds,
            golds[i].0,
        ) == Some(golds[i].1 as int),
        (forall|j: int| 0 <= j < golds.len() ==> (#[trigger] golds[j]).0 != seed) ==> gold(golds, seed) is None,
        expected(Some(golds), seed) == gold(golds, seed),
    decreases golds.len(),
{
    if golds.len() > 0 {
        let rest = golds.drop_last();
        let last = golds.len() - 1;
        law_last_listed_answer_counts(rest, i, seed);
        if 0 <= i < golds.len() && (forall|j: int| i < j < golds.len() ==> (#[trigger] golds[j]).0 != golds[i].0) {
            if i < last {
                assert(rest[i] == golds[i]);
                assert forall|j: int| i < j < rest.len() implies (#[trigger] rest[j]).0 != rest[i].0 by {
                    assert(golds[j].0 != golds[i].0);
                }
                assert(golds[last].0 != golds[i].0);
            }
        }
        if forall|j: int| 0 <= j < golds.len() ==> (#[trigger] golds[j]).0 != seed {
            assert forall|j: int| 0 <= j < rest.len() implies (#[trigger] rest[j]).0 != seed by {
                assert(golds[j].0 != seed);
            }
            assert(golds[last].0 != seed);
        }
    }
}

proof fn lemma_run_after(prefix: Seq<char>, run: Seq<char>)
    requires
        prefix.len() == 0 || !is_number_char(prefix.last()),
        forall|i: int| 0 <= i < run.len() ==> is_number_char(#[trigger] run[i]),
    ensures
        run_len(prefix + run) == run.len(),
    decreases run.len(),
{
    let text = prefix + run;
    if run.len() > 0 {
        let rest = run.drop_last();
        assert forall|i: int| 0 <= i < rest.len() implies is_number_char(#[trigger] rest[i]) by {
            assert(rest[i] == run[i]);
        }
        lemma_run_after(prefix, rest);
        assert(text.drop_last() =~= prefix + rest);
        assert(text.last() == run[run.len() - 1]);
    } else {
        assert(text =~= prefix);
    }
}

proof fn lemma_last_run_past(text: Seq<char>, tail: Seq<char>)
    requires
        forall|i: int| 0 <= i < tail.len() ==> !is_number_char(#[trigger] tail[i]),
    ensures
        last_run(text + tail) == last_run(text),
    decreases tail.len(),
{
    let both = text + tail;
    if tail.len() > 0 {
        let rest = tail.drop_last();
        assert forall|i: int| 0 <= i < rest.len() implies !is_number_char(#[trigger] rest[i]) by {
            assert(rest[i] == tail[i]);
        }
        lemma_last_run_past(text, rest);
        assert(both.last() == tail[tail.len() - 1]);
        assert(run_len(both) == 0);
        assert(both.skip(both.len() - 0).len() == 0);
        assert(!has_digit(both.skip(both.len() - 0)));
        assert(both.take(both.len() - 0 - 1) =~= text + rest);
    } else {
        assert(both =~= text);
    }
}

/// The integer of a text is its last run of fewer than twelve digits and hyphens that
/// has a digit; what comes after without a digit or hyphen does not matter.
pub proof fn law_last_number_counts(before: Seq<char>, run: Seq<char>, after: Seq<char>)
    requires
        !before.contains(','),
        !run.contains(','),
        !after.contains(','),
        before.len() == 0 || !is_number_char(before.last()),
        forall|i: int| 0 <= i < run.len() ==> is_number_char(#[trigger] run[i]),
        run.len() < 12,
        exists|i: int| 0 <= i < run.len() && '0' <= #[trigger] run[i] && run[i] <= '9',
        forall|i: int| 0 <= i < after.len() ==> !is_number_char(#[trigger] after[i]),
    ensures
        integer_in(before + run + after) == run_value(run),
{
    let text = before + run + after;
    let plain = |c: char| c != ',';
    assert forall|i: int| 0 <= i < text.len() implies plain(#[trigger] text[i]) by {
        if text[i] == ',' {
            if i < before.len() {
                assert(before[i] == ',');
            } else if i < before.len() + run.len() {
                assert(run[i - before.len()] == ',');
            } else {
                assert(after[i - before.len() - run.len()] == ',');
            }
        }
    }
    lemma_filter_all(text, plain);
    lemma_last_run_past(before + run, after);
    lemma_run_after(before, run);
    let kept = before + run;
    assert(kept.skip(kept.len() - run.len()) =~= run);
    let i = choose|i: int| 0 <= i < run.len() && '0' <= #[trigger] run[i] && run[i] <= '9';
    assert(is_digit(run[i]));
    assert(has_digit(run));
}

proof fn lemma_filter_all(text: Seq<char>, keep: spec_fn(char) -> bool)
    requires
        forall|i: int| 0 <= i < text.len() ==> keep(#[trigger] text[i]),
    ensures
        text.filter(keep) == text,
    decreases text.len(),
{
    reveal(Seq::filter);
    if text.len() > 0 {
        let rest = text.drop_last();
        assert forall|i: int| 0 <= i < rest.len() implies keep(#[trigger] rest[i]) by {
            assert(rest[i] == text[i]);
        }
        lemma_filter_all(rest, keep);
        assert(text[text.len() - 1] == text.last());
        assert(rest.push(text.last()) =~= text);
    }
}

/// Commas in a text do not matter.
pub proof fn law_commas_do_not_matter(text: Seq<char>)
    ensures
        integer_in(text.filter(|c: char| c != ',')) == integer_in(text),
{
    let plain = |c: char| c != ',';
    let bare = text.filter(plain);
    assert forall|i: int| 0 <= i < bare.len() implies plain(#[trigger] bare[i]) by {
        text.lemma_filter_pred(plain, i);
    }
    lemma_filter_all(bare, plain);
}

/// A run of digits is their value, and with a hyphen before them its negative; each
/// digit more is ten times the value and the digit.
pub proof fn law_runs_are_decimal(digits: Seq<char>, digit: char)
    requires
        forall|i: int| 0 <= i < digits.len() ==> is_digit(#[trigger] digits[i]),
        '0' <= digit,
        digit <= '9',
        digits.len() > 0,
    ensures
        run_value(digits) == Some(decimal_value(digits)),
        run_value(seq!['-'] + digits) == Some(-decimal_value(digits)),
        decimal_value(seq![digit]) == digit as int - 48,
        decimal_value(digits.push(digit)) == 10 * decimal_value(digits) + digit as int - 48,
{
    reveal_with_fuel(decimal_value, 2);
    let negative = seq!['-'] + digits;
    assert(is_digit(digits[0]));
    assert(digits[0] != '-');
    assert(negative.drop_first() =~= digits);
    assert(without_hyphens(digits) == digits);
    reveal_with_fuel(without_hyphens, 3);
    assert(without_hyphens(negative) == digits);
    assert(seq![digit].drop_last() =~= Seq::<char>::empty());
    assert(digits.push(digit).drop_last() =~= digits);
}

} // verus!
