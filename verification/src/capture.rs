//! The microphone: which device is used, and in which format.

use crate::text::same_str;
use vstd::prelude::*;

verus! {

/// The format of a sample.
#[derive(Clone, Copy, PartialEq, Eq, Structural, Debug)]
pub enum SampleKind {
    /// A number between -1 and 1.
    Float32,
    /// A signed number of 16 bits.
    Signed16,
    /// An unsigned number of 16 bits, with silence in the middle.
    Unsigned16,
    /// Anything else.
    Other,
}

/// What a device offers: a format, for a range of sample rates.
#[derive(Clone, Copy, PartialEq, Eq, Structural, Debug)]
pub struct ConfigRange {
    pub min_rate: u32,
    pub max_rate: u32,
    pub kind: SampleKind,
}

/// What was chosen of what a device offers.
#[derive(Clone, Copy, PartialEq, Eq, Structural, Debug)]
pub struct Choice {
    /// The place in the list of what the device offers.
    pub index: usize,
    pub rate: u32,
}

/// How many rates are preferred.
pub const RATES: usize = 5;

/// The rates that work well, the best first.
pub open spec fn preferred_rates() -> Seq<u32> {
    seq![48000u32, 44100u32, 16000u32, 32000u32, 96000u32]
}

/// The range holds the rate in the format.
pub open spec fn fits(config: ConfigRange, rate: u32, kind: SampleKind) -> bool {
    config.min_rate <= rate <= config.max_rate && config.kind == kind
}

/// The first range at or behind `from` that holds the rate in the format, or the number of
/// ranges.
pub open spec fn first_fitting(
    configs: Seq<ConfigRange>,
    rate: u32,
    kind: SampleKind,
    from: nat,
) -> nat
    decreases configs.len() - from,
{
    if from >= configs.len() || fits(configs[from as int], rate, kind) {
        from
    } else {
        first_fitting(configs, rate, kind, from + 1)
    }
}

/// The range chosen for a rate, or the number of ranges: floating point is preferred to 16
/// bits.
pub open spec fn chosen_at(configs: Seq<ConfigRange>, rate: u32) -> nat {
    let float = first_fitting(configs, rate, SampleKind::Float32, 0);
    if float < configs.len() {
        float
    } else {
        first_fitting(configs, rate, SampleKind::Signed16, 0)
    }
}

/// What is chosen of what a device offers: the best rate decides, then the format, then
/// the order of the list.
pub open spec fn chosen(configs: Seq<ConfigRange>, from: nat) -> Option<Choice>
    decreases RATES - from,
{
    if from >= RATES {
        None
    } else {
        let rate = preferred_rates()[from as int];
        if chosen_at(configs, rate) < configs.len() {
            Some(Choice { index: chosen_at(configs, rate) as usize, rate })
        } else {
            chosen(configs, from + 1)
        }
    }
}

fn find_fitting(configs: &[ConfigRange], rate: u32, kind: SampleKind) -> (r: usize)
    ensures
        r == first_fitting(configs@, rate, kind, 0),
        r <= configs@.len(),
{
    let mut i: usize = 0;
    while i < configs.len()
        invariant
            i <= configs@.len(),
            first_fitting(configs@, rate, kind, 0) == first_fitting(configs@, rate, kind, i as nat),
        decreases configs@.len() - i,
    {
        let config = configs[i];
        if config.min_rate <= rate && rate <= config.max_rate && config.kind == kind {
            return i;
        }
        i += 1;
    }
    i
}

/// Chooses of what a device offers. `None` where nothing that works well is offered: the
/// device's own default is used then.
pub fn get_safe_input_config(configs: &[ConfigRange]) -> (r: Option<Choice>)
    ensures
        r == chosen(configs@, 0),
{
    let rates: [u32; 5] = [48000, 44100, 16000, 32000, 96000];
    assert(rates@ =~= preferred_rates());
    let n: usize = configs.len();
    let mut i: usize = 0;
    while i < 5
        invariant
            i <= 5,
            n == configs@.len(),
            rates@ == preferred_rates(),
            chosen(configs@, 0) == chosen(configs@, i as nat),
        decreases 5 - i,
    {
        let rate: u32 = rates[i];
        let float: usize = find_fitting(configs, rate, SampleKind::Float32);
        if float < n {
            return Some(Choice { index: float, rate });
        }
        let signed: usize = find_fitting(configs, rate, SampleKind::Signed16);
        if signed < n {
            return Some(Choice { index: signed, rate });
        }
        i += 1;
    }
    None
}

proof fn lemma_first_fitting(configs: Seq<ConfigRange>, rate: u32, kind: SampleKind, from: nat)
    requires
        from <= configs.len(),
    ensures
        ({
            let i = first_fitting(configs, rate, kind, from);
            &&& from <= i <= configs.len()
            &&& i < configs.len() ==> fits(configs[i as int], rate, kind)
            &&& forall|j: int| from <= j < i ==> !fits(#[trigger] configs[j], rate, kind)
        }),
    decreases configs.len() - from,
{
    if from < configs.len() && !fits(configs[from as int], rate, kind) {
        lemma_first_fitting(configs, rate, kind, from + 1);
    }
}

proof fn lemma_chosen(configs: Seq<ConfigRange>, from: nat)
    requires
        configs.len() <= usize::MAX,
        from <= RATES,
    ensures
        match chosen(configs, from) {
            Some(choice) => {
                &&& choice.index < configs.len()
                &&& exists|k: int|
                    {
                        &&& from <= k < RATES
                        &&& #[trigger] preferred_rates()[k] == choice.rate
                        &&& forall|l: int, j: int|
                            from <= l < k && 0 <= j < configs.len() ==> !fits(
                                #[trigger] configs[j],
                                #[trigger] preferred_rates()[l],
                                SampleKind::Float32,
                            ) && !fits(configs[j], preferred_rates()[l], SampleKind::Signed16)
                    }
                &&& fits(configs[choice.index as int], choice.rate, SampleKind::Float32) || (fits(
                    configs[choice.index as int],
                    choice.rate,
                    SampleKind::Signed16,
                ) && forall|j: int|
                    0 <= j < configs.len() ==> !fits(
                        #[trigger] configs[j],
                        choice.rate,
                        SampleKind::Float32,
                    ))
            },
            None => forall|l: int, j: int|
                from <= l < RATES && 0 <= j < configs.len() ==> !fits(
                    #[trigger] configs[j],
                    #[trigger] preferred_rates()[l],
                    SampleKind::Float32,
                ) && !fits(configs[j], preferred_rates()[l], SampleKind::Signed16),
        },
    decreases RATES - from,
{
    if from < RATES {
        let rate = preferred_rates()[from as int];
        lemma_first_fitting(configs, rate, SampleKind::Float32, 0);
        lemma_first_fitting(configs, rate, SampleKind::Signed16, 0);
        if chosen_at(configs, rate) >= configs.len() {
            lemma_chosen(configs, from + 1);
        }
    }
}

/// What is chosen is offered, at a rate that works well, in floating point or 16 bits. No
/// better rate is offered in either format, and 16 bits are taken only where floating
/// point is not offered at the rate. Nothing is chosen only where no such rate is offered.
pub proof fn the_best_rate_is_chosen(configs: Seq<ConfigRange>)
    requires
        configs.len() <= usize::MAX,
    ensures
        match chosen(configs, 0) {
            Some(choice) => {
                &&& choice.index < configs.len()
                &&& exists|k: int|
                    {
                        &&& 0 <= k < RATES
                        &&& #[trigger] preferred_rates()[k] == choice.rate
                        &&& forall|l: int, j: int|
                            0 <= l < k && 0 <= j < configs.len() ==> !fits(
                                #[trigger] configs[j],
                                #[trigger] preferred_rates()[l],
                                SampleKind::Float32,
                            ) && !fits(configs[j], preferred_rates()[l], SampleKind::Signed16)
                    }
                &&& fits(configs[choice.index as int], choice.rate, SampleKind::Float32) || (fits(
                    configs[choice.index as int],
                    choice.rate,
                    SampleKind::Signed16,
                ) && forall|j: int|
                    0 <= j < configs.len() ==> !fits(
                        #[trigger] configs[j],
                        choice.rate,
                        SampleKind::Float32,
                    ))
            },
            None => forall|l: int, j: int|
                0 <= l < RATES && 0 <= j < configs.len() ==> !fits(
                    #[trigger] configs[j],
                    #[trigger] preferred_rates()[l],
                    SampleKind::Float32,
                ) && !fits(configs[j], preferred_rates()[l], SampleKind::Signed16),
        },
{
    lemma_chosen(configs, 0);
}

/// The device has the name that stands for the system's default source.
pub open spec fn is_pipewire(name: Option<String>) -> bool {
    name matches Some(name) && name@ == "pipewire"@
}

/// Finds the device that follows the system's default source among the names of the
/// devices. A name may be missing. `None` where there is no such device: the host's own
/// default is used then.
pub fn get_input_device(names: &[Option<String>]) -> (r: Option<usize>)
    ensures
        match r {
            Some(i) => {
                &&& i < names@.len()
                &&& is_pipewire(names@[i as int])
                &&& forall|j: int| 0 <= j < i ==> !is_pipewire(#[trigger] names@[j])
            },
            None => forall|j: int| 0 <= j < names@.len() ==> !is_pipewire(#[trigger] names@[j]),
        },
{
    let mut i: usize = 0;
    while i < names.len()
        invariant
            i <= names@.len(),
            forall|j: int| 0 <= j < i ==> !is_pipewire(#[trigger] names@[j]),
        decreases names@.len() - i,
    {
        let found = match &names[i] {
            Some(name) => same_str(name.as_str(), "pipewire"),
            None => false,
        };
        if found {
            return Some(i);
        }
        i += 1;
    }
    None
}

/// Tells whether samples of a format can be read.
pub fn can_read(kind: SampleKind) -> (r: bool)
    ensures
        r == (kind != SampleKind::Other),
{
    match kind {
        SampleKind::Other => false,
        _ => true,
    }
}

/// How often the windows are drawn for each time that the pitch is sought.
pub const PITCH_TICKS: u32 = 4;

/// Whether the pitch is sought at a tick, and the tick that follows. The count starts
/// over where it is full.
pub fn pitch_tick(tick: u32) -> (r: (bool, u32))
    ensures
        r.0 == (tick % PITCH_TICKS == 0),
        r.1 == (tick + 1) % 0x1_0000_0000,
{
    let then: u32 = if tick == 0xffff_ffff {
        0
    } else {
        tick + 1
    };
    (tick % PITCH_TICKS == 0, then)
}

/// The place of a rate among those that work well, the best first; 5 for any other rate.
pub open spec fn rank(rate: u32) -> int {
    if rate == 48000 {
        0
    } else if rate == 44100 {
        1
    } else if rate == 16000 {
        2
    } else if rate == 32000 {
        3
    } else if rate == 96000 {
        4
    } else {
        5
    }
}

/// What a device offers holds a rate, in a format that can be used.
pub open spec fn is_offered(config: ConfigRange, rate: u32) -> bool {
    &&& config.min_rate <= rate
    &&& rate <= config.max_rate
    &&& config.kind == SampleKind::Float32 || config.kind == SampleKind::Signed16
}

/// Of what a device offers the first is taken that holds the best rate, which is 48000, then
/// 44100, then 16000, then 32000, then 96000: the first in floating point, or the first in 16
/// bits where none is in floating point. Nothing is chosen exactly where none of these rates
/// is offered.
pub proof fn the_first_of_the_best_is_taken(configs: Seq<ConfigRange>)
    requires
        configs.len() <= usize::MAX,
    ensures
        match chosen(configs, 0) {
            Some(choice) => {
                let taken = configs[choice.index as int];
                &&& choice.index < configs.len()
                &&& rank(choice.rate) < 5
                &&& is_offered(taken, choice.rate)
                &&& forall|j: int|
                    0 <= j < choice.index && is_offered(#[trigger] configs[j], choice.rate)
                        ==> configs[j].kind == SampleKind::Signed16 && taken.kind
                        == SampleKind::Float32
                &&& taken.kind == SampleKind::Signed16 ==> forall|j: int|
                    0 <= j < configs.len() && is_offered(#[trigger] configs[j], choice.rate)
                        ==> configs[j].kind == SampleKind::Signed16
                &&& forall|j: int, rate: u32|
                    0 <= j < configs.len() && #[trigger] is_offered(configs[j], rate) ==> rank(
                        choice.rate,
                    ) <= rank(rate)
            },
            None => forall|j: int, rate: u32|
                0 <= j < configs.len() && #[trigger] is_offered(configs[j], rate) ==> rank(rate)
                    == 5,
        },
{
    lemma_first_of_the_best(configs, 0);
}

proof fn lemma_first_of_the_best(configs: Seq<ConfigRange>, from: nat)
    requires
        configs.len() <= usize::MAX,
        from <= RATES,
    ensures
        match chosen(configs, from) {
            Some(choice) => {
                let taken = configs[choice.index as int];
                &&& choice.index < configs.len()
                &&& from <= rank(choice.rate) < 5
                &&& is_offered(taken, choice.rate)
                &&& forall|j: int|
                    0 <= j < choice.index && is_offered(#[trigger] configs[j], choice.rate)
                        ==> configs[j].kind == SampleKind::Signed16 && taken.kind
                        == SampleKind::Float32
                &&& taken.kind == SampleKind::Signed16 ==> forall|j: int|
                    0 <= j < configs.len() && is_offered(#[trigger] configs[j], choice.rate)
                        ==> configs[j].kind == SampleKind::Signed16
                &&& forall|j: int, rate: u32|
                    0 <= j < configs.len() && #[trigger] is_offered(configs[j], rate) && from
                        <= rank(rate) ==> rank(choice.rate) <= rank(rate)
            },
            None => forall|j: int, rate: u32|
                0 <= j < configs.len() && #[trigger] is_offered(configs[j], rate) && from <= rank(
                    rate,
                ) ==> rank(rate) == 5,
        },
    decreases RATES - from,
{
    let rates = preferred_rates();
    assert(rates[0] == 48000 && rates[1] == 44100 && rates[2] == 16000 && rates[3] == 32000
        && rates[4] == 96000);
    if from < RATES {
        let rate = rates[from as int];
        assert(rank(rate) == from);
        assert forall|r: u32| #[trigger] rank(r) == from implies r == rate by {}
        lemma_first_fitting(configs, rate, SampleKind::Float32, 0);
        lemma_first_fitting(configs, rate, SampleKind::Signed16, 0);
        let float = first_fitting(configs, rate, SampleKind::Float32, 0);
        if chosen_at(configs, rate) < configs.len() {
            let at = chosen_at(configs, rate);
            assert(is_offered(configs[at as int], rate));
            assert forall|j: int|
                0 <= j < configs.len() && is_offered(#[trigger] configs[j], rate) && (j < at
                    || float >= configs.len()) implies configs[j].kind == SampleKind::Signed16 by {
                if configs[j].kind == SampleKind::Float32 {
                    assert(fits(configs[j], rate, SampleKind::Float32));
                }
            }
            assert forall|j: int| 0 <= j < at && is_offered(#[trigger] configs[j], rate) implies
                configs[at as int].kind == SampleKind::Float32 by {
                if float >= configs.len() {
                    assert(fits(configs[j], rate, SampleKind::Signed16));
                }
            }
        } else {
            lemma_first_of_the_best(configs, from + 1);
            assert forall|j: int| 0 <= j < configs.len() implies !is_offered(
                #[trigger] configs[j],
                rate,
            ) by {
                assert(!fits(configs[j], rate, SampleKind::Float32));
                assert(!fits(configs[j], rate, SampleKind::Signed16));
            }
        }
    }
}

/// Only a device that is named, and named so and no other way, follows the system's default
/// source.
pub proof fn the_device_is_known_by_its_name(name: String)
    ensures
        is_pipewire(Some(name)) <==> name@ == seq!['p', 'i', 'p', 'e', 'w', 'i', 'r', 'e'],
        !is_pipewire(None),
{
    reveal_strlit("pipewire");
    assert("pipewire"@ =~= seq!['p', 'i', 'p', 'e', 'w', 'i', 'r', 'e']);
}

} // verus!
