//! Graphics devices and processor cores: how many there are, and which one a
//! worker gets.
use vstd::prelude::*;
use vstd::string::*;

use crate::fields::{pieces, split, texts, trim, trimmed, without_prefix};
use crate::text::same_text;

verus! {

/// The model that the first line which names one names.
pub open spec fn first_model(lines: Seq<Seq<char>>) -> Option<Seq<char>>
    decreases lines.len(),
{
    if lines.len() == 0 {
        None
    } else if "Model name:"@.is_prefix_of(lines[0]) {
        Some(trimmed(lines[0].skip("Model name:"@.len() as int)))
    } else {
        first_model(lines.drop_first())
    }
}

/// The model of the processor: from a listing of its properties, else from the brand
/// that the system gives.
pub fn cpu_model(properties: Option<&str>, brand: Option<&str>) -> (r: String)
    ensures
        r@ == match (
            match properties {
                Some(listing) => first_model(pieces(listing@, '\n')),
                None => None,
            },
            brand,
        ) {
            (Some(model), _) => model,
            (None, Some(brand)) => trimmed(brand@),
            (None, None) => "unknown"@,
        },
{
    if let Some(listing) = properties {
        let lines = split(listing, '\n');
        let mut i: usize = 0;
        assert(texts(lines@).skip(0) =~= texts(lines@));
        while i < lines.len()
            invariant
                i <= lines@.len(),
                properties == Some(listing),
                texts(lines@) == pieces(listing@, '\n'),
                first_model(pieces(listing@, '\n')) == first_model(texts(lines@).skip(i as int)),
            decreases lines@.len() - i,
        {
            let ghost left = texts(lines@).skip(i as int);
            assert(left[0] == lines@[i as int]@);
            assert(left.drop_first() =~= texts(lines@).skip(i + 1));
            if let Some(rest) = without_prefix(lines[i], "Model name:") {
                return trim(rest).to_string();
            }
            i += 1;
        }
    }
    match brand {
        Some(brand) => trim(brand).to_string(),
        None => "unknown".to_string(),
    }
}

/// The device that the task which runs at present may use.
#[derive(Debug)]
pub struct DeviceSlot {
    current: Option<usize>,
}

impl View for DeviceSlot {
    type V = Option<usize>;

    closed spec fn view(&self) -> Option<usize> {
        self.current
    }
}

impl DeviceSlot {
    /// A slot that no device was assigned to.
    pub fn new() -> (r: Self)
        ensures
            r@ is None,
    {
        DeviceSlot { current: None }
    }

    pub fn current_device(&self) -> (r: Option<usize>)
        ensures
            r == self@,
    {
        self.current
    }

    pub fn set_current_device(&mut self, device: Option<usize>)
        ensures
            final(self)@ == device,
    {
        self.current = device;
    }
}

/// How many of these are not blank.
pub open spec fn filled(list: Seq<Seq<char>>) -> nat
    decreases list.len(),
{
    if list.len() == 0 {
        0
    } else {
        filled(list.drop_last()) + if trimmed(list.last()).len() > 0 {
            1nat
        } else {
            0
        }
    }
}

/// How many devices a list of visible ones names: none if it is empty or is the
/// word for none, else as many as there are entries that are not blank.
pub open spec fn visible_count(visible: Seq<char>) -> nat {
    if visible.len() == 0 || visible == "-1"@ {
        0
    } else {
        filled(pieces(visible, ','))
    }
}

/// Counts the devices that a list of visible ones names.
pub fn visible_devices(visible: &str) -> (r: usize)
    ensures
        r == visible_count(visible@),
{
    if visible.unicode_len() == 0 || same_text(visible, "-1") {
        return 0;
    }
    let list = split(visible, ',');
    let ghost all = texts(list@);
    let mut count: usize = 0;
    let mut i: usize = 0;
    assert(all.take(0) =~= Seq::<Seq<char>>::empty());
    while i < list.len()
        invariant
            all == texts(list@),
            i <= list@.len(),
            count <= i,
            count == filled(all.take(i as int)),
        decreases list@.len() - i,
    {
        assert(all.take(i + 1).drop_last() =~= all.take(i as int));
        assert(all.take(i + 1).last() == list@[i as int]@);
        if trim(list[i]).unicode_len() > 0 {
            count += 1;
        }
        i += 1;
    }
    assert(all.take(i as int) =~= all);
    count
}

/// A line that names a device starts at this place.
pub open spec fn names_device(text: Seq<char>, at: int) -> bool {
    &&& at == 0 || text[at - 1] == '\n'
    &&& at + 4 <= text.len()
    &&& text[at] == 'G'
    &&& text[at + 1] == 'P'
    &&& text[at + 2] == 'U'
    &&& text[at + 3] == ' '
}

/// How many lines that start before a place name a device.
pub open spec fn device_lines(text: Seq<char>, before: int) -> nat
    decreases before,
{
    if before <= 0 {
        0
    } else {
        device_lines(text, before - 1) + if names_device(text, before - 1) {
            1nat
        } else {
            0
        }
    }
}

/// Counts the lines of a listing that name a device.
pub fn listed_devices(listing: &str) -> (r: usize)
    ensures
        r == device_lines(listing@, listing@.len() as int),
{
    let len: usize = listing.unicode_len();
    let mut count: usize = 0;
    let mut i: usize = 0;
    while i < len
        invariant
            len == listing@.len(),
            i <= len,
            count <= i,
            count == device_lines(listing@, i as int),
        decreases len - i,
    {
        let begins = i == 0 || listing.get_char(i - 1) == '\n';
        if begins && len - i >= 4 && listing.get_char(i) == 'G' && listing.get_char(i + 1) == 'P' && listing.get_char(
            i + 2,
        ) == 'U' && listing.get_char(i + 3) == ' ' {
            count += 1;
        }
        i += 1;
    }
    count
}

/// The number of devices: what the list of visible ones says, if there is one;
/// else what the driver knows of, if that is any; else what the listing shows.
pub fn gpu_count(visible: Option<&str>, driver: Option<usize>, listing: Option<&str>) -> (r: usize)
    ensures
        r == match visible {
            Some(list) => visible_count(list@) as int,
            None => if driver is Some && driver->0 > 0 {
                driver->0 as int
            } else {
                match listing {
                    Some(text) => device_lines(text@, text@.len() as int) as int,
                    None => 0,
                }
            },
        },
{
    match visible {
        Some(list) => return visible_devices(list),
        None => {},
    }
    match driver {
        Some(count) if count > 0 => return count,
        _ => {},
    }
    match listing {
        Some(text) => listed_devices(text),
        None => 0,
    }
}

/// The core that the worker thread with this number is bound to: the cores are
/// given out in turn.
pub fn core_for(thread: usize, cores: usize) -> (r: Option<usize>)
    ensures
        match r {
            Some(core) => core < cores && core == thread as int % cores as int,
            None => cores == 0,
        },
{
    if cores == 0 {
        None
    } else {
        Some(thread % cores)
    }
}

/// As long as there are no more threads than cores, no two share one.
pub proof fn law_cores_are_not_shared(one: int, other: int, cores: int)
    requires
        0 <= one < cores,
        0 <= other < cores,
        one != other,
    ensures
        one % cores != other % cores,
{
    assert(one % cores == one) by (nonlinear_arith)
        requires
            0 <= one < cores,
    ;
    assert(other % cores == other) by (nonlinear_arith)
        requires
            0 <= other < cores,
    ;
}

proof fn lemma_filled(list: Seq<Seq<char>>)
    ensures
        filled(list) == list.filter(|piece: Seq<char>| trimmed(piece).len() > 0).len(),
    decreases list.len(),
{
    reveal(Seq::filter);
    if list.len() > 0 {
        lemma_filled(list.drop_last());
    }
}

/// The visible devices are as many as there are entries that are not blank between the
/// commas; none where the list is empty or says so.
pub proof fn law_visible_devices_are_counted(visible: &str, r: usize)
    requires
        call_ensures(visible_devices, (visible,), r),
    ensures
        visible@.len() == 0 || visible@ == "-1"@ ==> r == 0,
        visible@.len() > 0 && visible@ != "-1"@ ==> r == pieces(visible@, ',').filter(
            |piece: Seq<char>| trimmed(piece).len() > 0,
        ).len(),
{
    lemma_filled(pieces(visible@, ','));
}

/// Devices are those that are visible, where that is said; else those that the driver
/// counts, where it counts any; else those that are listed.
pub proof fn law_devices_are_counted_by_the_best_source(
    visible: Option<&str>,
    driver: Option<usize>,
    listing: Option<&str>,
    r: usize,
)
    requires
        call_ensures(gpu_count, (visible, driver, listing), r),
    ensures
        visible matches Some(list) ==> r == visible_count(list@),
        visible is None && driver is Some && driver->0 > 0 ==> r == driver->0,
        visible is None && !(driver is Some && driver->0 > 0) && listing is None ==> r == 0,
        visible is None && !(driver is Some && driver->0 > 0) && listing is Some ==> r == device_lines(
            listing->0@,
            listing->0@.len() as int,
        ),
{
}

proof fn lemma_next_core(thread: int, cores: int)
    requires
        0 <= thread,
        0 < cores,
    ensures
        0 <= thread % cores < cores,
        thread < cores ==> thread % cores == thread,
        thread % cores + 1 < cores ==> (thread + 1) % cores == thread % cores + 1,
        thread % cores + 1 == cores ==> (thread + 1) % cores == 0,
{
    let q = thread / cores;
    let m = thread % cores;
    vstd::arithmetic::div_mod::lemma_fundamental_div_mod(thread, cores);
    vstd::arithmetic::div_mod::lemma_mod_bound(thread, cores);
    assert(q * cores == cores * q) by (nonlinear_arith);
    assert((q + 1) * cores == cores * q + cores) by (nonlinear_arith);
    if thread < cores {
        vstd::arithmetic::div_mod::lemma_small_mod(thread as nat, cores as nat);
    }
    if m + 1 < cores {
        vstd::arithmetic::div_mod::lemma_fundamental_div_mod_converse(thread + 1, cores, q, m + 1);
    } else {
        vstd::arithmetic::div_mod::lemma_fundamental_div_mod_converse(thread + 1, cores, q + 1, 0);
    }
}

/// Threads are spread over the cores one by one, over and over.
pub proof fn law_threads_go_round_the_cores(thread: usize, cores: usize, one: Option<usize>, next: Option<usize>)
    requires
        thread < usize::MAX,
        call_ensures(core_for, (thread, cores), one),
        call_ensures(core_for, ((thread + 1) as usize, cores), next),
    ensures
        one is Some <==> cores > 0,
        thread < cores ==> one == Some(thread),
        cores > 0 && one->0 + 1 < cores ==> next == Some((one->0 + 1) as usize),
        cores > 0 && one->0 + 1 == cores ==> next == Some(0usize),
{
    if cores > 0 {
        lemma_next_core(thread as int, cores as int);
    }
}

/// The processor is called what the first line that names it says, without the blanks
/// around it.
pub proof fn law_first_name_counts(lines: Seq<Seq<char>>, at: int, name: Seq<char>)
    requires
        0 <= at < lines.len(),
        lines[at] == "Model name:"@ + name,
        forall|i: int| 0 <= i < at ==> !"Model name:"@.is_prefix_of(#[trigger] lines[i]),
    ensures
        first_model(lines) == Some(trimmed(name)),
    decreases lines.len(),
{
    if at > 0 {
        let rest = lines.drop_first();
        assert(!"Model name:"@.is_prefix_of(lines[0]));
        assert forall|i: int| 0 <= i < at - 1 implies !"Model name:"@.is_prefix_of(#[trigger] rest[i]) by {
            assert(rest[i] == lines[i + 1]);
        }
        law_first_name_counts(rest, at - 1, name);
    } else {
        let line = lines[0];
        assert("Model name:"@ =~= line.take("Model name:"@.len() as int));
        assert(line.skip("Model name:"@.len() as int) =~= name);
    }
}

proof fn lemma_device_lines_first(a: Seq<char>, b: Seq<char>, before: int)
    requires
        0 <= before <= a.len(),
    ensures
        device_lines(a + seq!['\n'] + b, before) == device_lines(a, before),
    decreases before,
{
    if before > 0 {
        lemma_device_lines_first(a, b, before - 1);
        let text = a + seq!['\n'] + b;
        let at = before - 1;
        assert(text[a.len() as int] == '\n');
        assert forall|i: int| 0 <= i < a.len() implies #[trigger] text[i] == a[i] by {}
        assert(names_device(text, at) == names_device(a, at)) by {
            if at + 4 > a.len() {
                assert(at + 1 == a.len() || at + 2 == a.len() || at + 3 == a.len());
            }
        }
    }
}

proof fn lemma_device_lines_rest(a: Seq<char>, b: Seq<char>, before: int)
    requires
        0 <= before <= b.len(),
    ensures
        device_lines(a + seq!['\n'] + b, a.len() + 1 + before) == device_lines(a, a.len() as int) + device_lines(
            b,
            before,
        ),
    decreases before,
{
    let text = a + seq!['\n'] + b;
    let start = a.len() + 1;
    assert(text[a.len() as int] == '\n');
    if before > 0 {
        lemma_device_lines_rest(a, b, before - 1);
        let at = before - 1;
        assert forall|i: int| 0 <= i < b.len() implies #[trigger] b[i] == text[start + i] by {}
        assert(names_device(text, start + at) == names_device(b, at)) by {
            if at > 0 {
                assert(b[at - 1] == text[start + at - 1]);
            }
            assert(b[at] == text[start + at]);
            if at + 4 <= b.len() {
                assert(b[at + 1] == text[start + at + 1]);
                assert(b[at + 2] == text[start + at + 2]);
                assert(b[at + 3] == text[start + at + 3]);
            }
        }
    } else {
        lemma_device_lines_first(a, b, a.len() as int);
        assert(!names_device(text, a.len() as int));
    }
}

/// A listing names as many devices as its first line and the rest of it do.
pub proof fn law_devices_are_listed_line_by_line(first: Seq<char>, rest: Seq<char>)
    ensures
        ({
            let text = first + seq!['\n'] + rest;
            device_lines(text, text.len() as int) == device_lines(first, first.len() as int) + device_lines(
                rest,
                rest.len() as int,
            )
        }),
{
    lemma_device_lines_rest(first, rest, rest.len() as int);
}

/// A line names a device if and only if it starts with the word for one.
pub proof fn law_line_names_a_device(line: Seq<char>)
    requires
        !line.contains('\n'),
    ensures
        device_lines(line, line.len() as int) == if "GPU "@.is_prefix_of(line) {
            1nat
        } else {
            0
        },
{
    reveal_strlit("GPU ");
    lemma_one_line(line, line.len() as int);
    if line.len() >= 4 {
        assert("GPU "@.is_prefix_of(line) <==> line.take(4) =~= "GPU "@);
        assert forall|i: int| 0 <= i < 4 implies #[trigger] line.take(4)[i] == line[i] by {}
        if names_device(line, 0) {
            assert(line.take(4) =~= "GPU "@);
        }
        if "GPU "@.is_prefix_of(line) {
            assert(line.take(4) == "GPU "@);
            assert(line.take(4)[0] == 'G' && line.take(4)[1] == 'P' && line.take(4)[2] == 'U' && line.take(4)[3] == ' ');
        }
    }
}

proof fn lemma_one_line(line: Seq<char>, before: int)
    requires
        !line.contains('\n'),
        0 <= before <= line.len(),
    ensures
        device_lines(line, before) == if before > 0 && names_device(line, 0) {
            1nat
        } else {
            0
        },
    decreases before,
{
    if before > 0 {
        lemma_one_line(line, before - 1);
        if before > 1 {
            assert(line.contains(line[before - 2]));
        }
    }
}

} // verus!
