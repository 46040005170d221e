//! From the start of the daemon to its first tick, and from its last tick to its end.

use crate::config::{config_views, sensor_views, FanConfig, FanConfigView, SensorSpec};
use crate::error::{Error, IoCause};
use crate::fan_controller::{
    gives_back, release_fan_to_smc, writes, FanController, FanWrite,
};
use crate::non_empty::{
    fan_at, fan_count, fan_list, fans_from_vec, path_count, path_list, paths_from_vec,
    paths_into_vec,
};
use crate::paths::{file_name, stripped, suffix_goes_to_the_name, suffixed};
use crate::sensors::{raw_temperature, read_temp_file, RawRead};
use crate::setup::spec_lists;
use crate::text::{
    concat, decimal, decimal_reads_back, decimal_text, digits_value, ends_with,
    lemma_decimal_digits, number, parse_number, same_text, starts_with, strip_prefix, strip_suffix,
    texts, trim, trim_text, unsigned_body,
};
use vstd::prelude::*;
use vstd::string::*;

verus! {

/// Whether this is root.
pub open spec fn is_root(euid: u32) -> bool {
    euid == 0
}

/// Only root can control fans.
pub fn check_root(euid: u32) -> (r: Result<(), Error>)
    ensures
        r is Ok <==> is_root(euid),
        euid == 0 ==> r is Ok,
        euid != 0 ==> r == Err::<(), Error>(Error::NotRoot),
{
    if euid != 0 {
        Err(Error::NotRoot)
    } else {
        Ok(())
    }
}

/// What reading the PID file came to.
#[derive(Debug)]
pub enum PidRead {
    /// The PID of the daemon that wrote the file.
    Pid(String),
    /// There is no file.
    Missing,
    /// The file is there and could not be read.
    Failed(IoCause),
}

/// The path that is there as long as the process with this PID runs. What is an absolute path
/// already stands for itself.
pub open spec fn proc_path_of(pid: Seq<char>) -> Seq<char> {
    if starts_with(pid, "/"@) {
        pid
    } else {
        "/proc/"@ + pid
    }
}

/// The path that is there as long as the process with this PID runs.
pub fn proc_path(pid: &str) -> (r: String)
    ensures
        r@ == proc_path_of(pid@),
{
    match strip_prefix(pid, "/") {
        Some(_) => pid.to_owned(),
        None => concat("/proc/", pid),
    }
}

/// What to write into the PID file, or why the daemon cannot start.
pub open spec fn pid_outcome(file: PidRead, running: bool, pid: u32) -> Result<Seq<char>, Error> {
    match file {
        PidRead::Pid(_) => if running {
            Err(Error::AlreadyRunning)
        } else {
            Ok(decimal(pid as nat))
        },
        PidRead::Missing => Ok(decimal(pid as nat)),
        PidRead::Failed(cause) => Err(Error::PidRead(cause)),
    }
}

/// What to write into the PID file, unless a daemon runs already. `running` says whether the path
/// of [`proc_path`] is there.
pub fn check_pid_file(file: &PidRead, running: bool, current_pid: u32) -> (r: Result<String, Error>)
    ensures
        match file {
            PidRead::Pid(_) if running => r == Err::<String, Error>(Error::AlreadyRunning),
            PidRead::Failed(cause) => r == Err::<String, Error>(Error::PidRead(*cause)),
            _ => r is Ok && r->Ok_0@ == decimal(current_pid as nat),
        },
        match pid_outcome(*file, running, current_pid) {
            Ok(text) => r is Ok && r->Ok_0@ == text,
            Err(e) => r == Err::<String, Error>(e),
        },
{
    match file {
        PidRead::Pid(_) => {
            if running {
                return Err(Error::AlreadyRunning);
            }
        },
        PidRead::Missing => {},
        PidRead::Failed(cause) => return Err(Error::PidRead(*cause)),
    }
    Ok(decimal_text(current_pid as u64))
}

/// A hardware monitor and its name, where that can be read.
#[derive(Debug)]
pub struct HwmonName {
    pub dir: String,
    pub name: Option<String>,
}

/// Whether the monitor is the SMC's.
pub open spec fn is_macsmc(hwmon: HwmonName) -> bool {
    hwmon.name matches Some(name) && trim(name@) == "macsmc_hwmon"@
}

/// The first of the monitors that is the SMC's.
pub open spec fn first_macsmc(hwmons: Seq<HwmonName>) -> Option<nat>
    decreases hwmons.len(),
{
    if hwmons.len() == 0 {
        None
    } else if is_macsmc(hwmons[0]) {
        Some(0)
    } else {
        match first_macsmc(hwmons.drop_first()) {
            Some(i) => Some(i + 1),
            None => None,
        }
    }
}

/// A monitor that is the SMC's, with none before it, is the first.
proof fn lemma_first_macsmc(hwmons: Seq<HwmonName>, i: int)
    requires
        0 <= i <= hwmons.len(),
        i < hwmons.len() ==> is_macsmc(hwmons[i]),
        forall|j: int| 0 <= j < i ==> !is_macsmc(#[trigger] hwmons[j]),
    ensures
        first_macsmc(hwmons) == (if i < hwmons.len() {
            Some(i as nat)
        } else {
            None
        }),
    decreases i,
{
    if i > 0 {
        let rest = hwmons.drop_first();
        assert(!is_macsmc(hwmons[0]));
        assert forall|j: int| 0 <= j < i - 1 implies !is_macsmc(#[trigger] rest[j]) by {
            assert(rest[j] == hwmons[j + 1]);
        }
        lemma_first_macsmc(rest, i - 1);
    }
}

/// The directory of the SMC's monitor: the first one with its name.
pub fn find_macsmc_hwmon(hwmons: &Vec<HwmonName>) -> (r: Result<String, Error>)
    ensures
        match first_macsmc(hwmons@) {
            Some(i) => r is Ok && r->Ok_0@ == hwmons@[i as int].dir@,
            None => r == Err::<String, Error>(Error::NoFan),
        },
        match r {
            Ok(dir) => exists|i: int| #![trigger hwmons@[i]]
                {
                    &&& 0 <= i < hwmons.len()
                    &&& is_macsmc(hwmons@[i])
                    &&& dir@ == hwmons@[i].dir@
                    &&& forall|j: int| 0 <= j < i ==> !is_macsmc(#[trigger] hwmons@[j])
                },
            Err(e) => {
                &&& e == Error::NoFan
                &&& forall|j: int| 0 <= j < hwmons.len() ==> !is_macsmc(#[trigger] hwmons@[j])
            },
        },
{
    let mut i: usize = 0;
    while i < hwmons.len()
        invariant
            i <= hwmons.len(),
            forall|j: int| 0 <= j < i ==> !is_macsmc(#[trigger] hwmons@[j]),
        decreases hwmons.len() - i,
    {
        if let Some(name) = &hwmons[i].name {
            if same_text(trim_text(name.as_str()), "macsmc_hwmon") {
                let dir: String = hwmons[i].dir.clone();
                assert(is_macsmc(hwmons@[i as int]) && dir@ == hwmons@[i as int].dir@);
                proof {
                    lemma_first_macsmc(hwmons@, i as int);
                }
                return Ok(dir);
            }
        }
        i = i + 1;
    }
    proof {
        lemma_first_macsmc(hwmons@, i as int);
    }
    Err(Error::NoFan)
}

/// A fan of the SMC: its number, and the stem of the names of its files.
pub struct FanStemView {
    pub index: nat,
    pub stem: Seq<char>,
}

/// A fan of the SMC: its number, and the stem of the names of its files.
#[derive(Debug)]
pub struct FanStem {
    pub index: u32,
    pub stem: String,
}

impl View for FanStem {
    type V = FanStemView;

    open spec fn view(&self) -> FanStemView {
        FanStemView { index: self.index as nat, stem: self.stem@ }
    }
}

/// What a list of fans says.
pub open spec fn stem_views(v: Seq<FanStem>) -> Seq<FanStemView> {
    Seq::new(v.len(), |i: int| v[i]@)
}

/// The fan that has a file with this name: `fan`, the number and `_input`.
pub open spec fn named_fan(name: Seq<char>) -> Option<FanStemView> {
    let stem = name.take(name.len() - "_input"@.len());
    if !ends_with(name, "_input"@) || !starts_with(stem, "fan"@) {
        None
    } else {
        match number(stem.skip("fan"@.len() as int), 10, u32::MAX as nat) {
            Some(index) => Some(FanStemView { index, stem }),
            None => None,
        }
    }
}

/// The fans among the files with these names; a name that is no fan's is passed over.
pub open spec fn named_fans(names: Seq<Seq<char>>) -> Seq<FanStemView>
    decreases names.len(),
{
    if names.len() == 0 {
        Seq::empty()
    } else {
        match named_fan(names.last()) {
            Some(fan) => named_fans(names.drop_last()).push(fan),
            None => named_fans(names.drop_last()),
        }
    }
}

/// One more fan among fans in ascending order: after the last one whose number is not greater.
pub open spec fn insert_fan(fans: Seq<FanStemView>, fan: FanStemView) -> Seq<FanStemView>
    decreases fans.len(),
{
    if fans.len() == 0 || fans.last().index <= fan.index {
        fans.push(fan)
    } else {
        insert_fan(fans.drop_last(), fan).push(fans.last())
    }
}

/// Fans in ascending order of their numbers; those with the same number stay as they came.
pub open spec fn ordered(fans: Seq<FanStemView>) -> Seq<FanStemView>
    decreases fans.len(),
{
    if fans.len() == 0 {
        Seq::empty()
    } else {
        insert_fan(ordered(fans.drop_last()), fans.last())
    }
}

/// The paths of fans in a directory.
pub open spec fn fan_paths(dir: Seq<char>, fans: Seq<FanStemView>) -> Seq<Seq<char>> {
    Seq::new(fans.len(), |i: int| dir + "/"@ + fans[i].stem)
}

/// Reads a fan out of the name of one of its files.
fn parse_fan(name: &str) -> (r: Option<FanStem>)
    ensures
        match r {
            Some(fan) => named_fan(name@) == Some(fan@),
            None => named_fan(name@) is None,
        },
{
    let stem: &str = match strip_suffix(name, "_input") {
        Some(stem) => stem,
        None => return None,
    };
    let digits: &str = match strip_prefix(stem, "fan") {
        Some(digits) => digits,
        None => return None,
    };
    match parse_number(digits, 10, u32::MAX) {
        Some(index) => Some(FanStem { index, stem: stem.to_owned() }),
        None => None,
    }
}

/// Where a fan goes among fans in ascending order.
proof fn lemma_insert_fan(fans: Seq<FanStemView>, fan: FanStemView, p: int)
    requires
        0 <= p <= fans.len(),
        p == 0 || fans[p - 1].index <= fan.index,
        forall|j: int| p <= j < fans.len() ==> (#[trigger] fans[j]).index > fan.index,
    ensures
        insert_fan(fans, fan) == fans.insert(p, fan),
    decreases fans.len(),
{
    if p == fans.len() {
        assert(fans.insert(p, fan) =~= fans.push(fan));
    } else {
        assert(fans[fans.len() - 1].index > fan.index);
        lemma_insert_fan(fans.drop_last(), fan, p);
        assert(fans.drop_last().insert(p, fan).push(fans.last()) =~= fans.insert(p, fan));
    }
}

/// Puts a fan among fans in ascending order.
fn insert_in_order(fans: &mut Vec<FanStem>, fan: FanStem)
    ensures
        stem_views(final(fans)@) == insert_fan(stem_views(old(fans)@), fan@),
{
    let ghost views = stem_views(fans@);
    let mut p: usize = fans.len();
    while p > 0 && fans[p - 1].index > fan.index
        invariant
            p <= fans.len(),
            views == stem_views(fans@),
            forall|j: int| p <= j < views.len() ==> (#[trigger] views[j]).index > fan@.index,
        decreases p,
    {
        assert(views[p - 1].index == fans@[p - 1].index);
        p = p - 1;
    }
    proof {
        if p > 0 {
            assert(views[p - 1].index == fans@[p - 1].index);
        }
        lemma_insert_fan(views, fan@, p as int);
    }
    fans.insert(p, fan);
    assert(stem_views(fans@) =~= views.insert(p as int, fan@));
}

/// The fans of the SMC, each by the stem of its files' paths, in ascending order of their numbers.
/// So the first one is the one that the section `Fan1` of the configuration is for, and so on.
pub fn find_fan_paths(dir: &str, names: &Vec<String>) -> (r: Result<
    nonempty::NonEmpty<String>,
    Error,
>)
    ensures
        ({
            let fans = named_fans(texts(names@));
            match r {
                Ok(paths) => {
                    &&& fans.len() > 0
                    &&& path_list(paths) == fan_paths(dir@, ordered(fans))
                },
                Err(e) => fans.len() == 0 && e == Error::NoFan,
            }
        }),
{
    let ghost all = texts(names@);
    let mut fans: Vec<FanStem> = Vec::new();
    let mut i: usize = 0;
    assert(all.take(0) =~= Seq::<Seq<char>>::empty());
    assert(stem_views(fans@) =~= Seq::<FanStemView>::empty());
    while i < names.len()
        invariant
            i <= names.len(),
            all == texts(names@),
            stem_views(fans@) == ordered(named_fans(all.take(i as int))),
        decreases names.len() - i,
    {
        assert(all.take(i + 1).drop_last() =~= all.take(i as int));
        assert(all.take(i + 1).last() == names@[i as int]@);
        if let Some(fan) = parse_fan(names[i].as_str()) {
            proof {
                let before = named_fans(all.take(i as int));
                assert(before.push(fan@).drop_last() =~= before);
            }
            insert_in_order(&mut fans, fan);
        }
        i = i + 1;
    }
    assert(all.take(i as int) =~= all);
    let mut paths: Vec<String> = Vec::new();
    let mut k: usize = 0;
    while k < fans.len()
        invariant
            k <= fans.len(),
            paths.len() == k,
            forall|j: int|
                0 <= j < k ==> (#[trigger] paths@[j])@ == dir@ + "/"@ + fans@[j].stem@,
        decreases fans.len() - k,
    {
        paths.push(concat(dir, "/").concat(fans[k].stem.as_str()));
        k = k + 1;
    }
    proof {
        order_keeps_every_fan(named_fans(all));
        assert(texts(paths@) =~= fan_paths(dir@, stem_views(fans@)));
    }
    match paths_from_vec(paths) {
        Some(paths) => Ok(paths),
        None => Err(Error::NoFan),
    }
}

/// What digits are written with is no separator.
proof fn lemma_digits_no_slash(s: Seq<char>, radix: nat)
    requires
        digits_value(s, radix) is Some,
    ensures
        forall|i: int|
            0 <= i < s.len() ==> (#[trigger] s[i]) != '/' && s[i] != '.',
    decreases s.len(),
{
    if s.len() > 0 {
        let rest = s.drop_last();
        lemma_digits_no_slash(rest, radix);
        assert forall|i: int| 0 <= i < s.len() implies (#[trigger] s[i]) != '/' && s[i] != '.' by {
            if i < rest.len() {
                assert(rest[i] == s[i]);
            }
        }
    }
}

/// A fan that was found in a directory has its files there, under its own name with a suffix.
pub proof fn found_fan_has_its_files(dir: Seq<char>, name: Seq<char>, suffix: Seq<char>)
    requires
        named_fan(name) is Some,
        dir.len() > 0,
        dir.last() != '/',
        stripped(dir) == dir,
    ensures
        ({
            let path = dir + "/"@ + named_fan(name)->0.stem;
            &&& file_name(path) is Some
            &&& suffixed(path, suffix) == Some(path + suffix)
        }),
{
    reveal_strlit("fan");
    let stem = named_fan(name)->0.stem;
    let digits = stem.skip(3);
    let body = unsigned_body(digits);
    lemma_digits_no_slash(body, 10);
    assert(stem.take(3) =~= "fan"@);
    assert forall|i: int| 0 <= i < stem.len() implies (#[trigger] stem[i]) != '/' && (i >= 3
        ==> stem[i] != '.') by {
        if i < 3 {
            assert(stem[i] == "fan"@[i]);
        } else {
            assert(stem[i] == digits[i - 3]);
            if digits[0] == '+' {
                if i > 3 {
                    assert(digits[i - 3] == body[i - 4]);
                }
            } else {
                assert(digits[i - 3] == body[i - 3]);
            }
        }
    }
    assert(stem[stem.len() - 1] != '.');
    suffix_goes_to_the_name(dir, stem, suffix);
}

/// How many fans there are: as many as the configuration has sections for.
pub fn count_fans(paths: &nonempty::NonEmpty<String>) -> (r: usize)
    ensures
        r > 0,
        r == path_list(*paths).len(),
{
    path_count(paths)
}

/// The fans with this number, as they come.
pub open spec fn with_index(fans: Seq<FanStemView>, index: nat) -> Seq<FanStemView>
    decreases fans.len(),
{
    if fans.len() == 0 {
        Seq::empty()
    } else if fans.last().index == index {
        with_index(fans.drop_last(), index).push(fans.last())
    } else {
        with_index(fans.drop_last(), index)
    }
}

/// Whether the numbers of the fans ascend.
pub open spec fn ascending(fans: Seq<FanStemView>) -> bool {
    forall|i: int, j: int|
        0 <= i < j < fans.len() ==> (#[trigger] fans[i]).index <= (#[trigger] fans[j]).index
}

/// One more fan keeps the order.
proof fn lemma_insert_ascending(fans: Seq<FanStemView>, fan: FanStemView)
    requires
        ascending(fans),
    ensures
        ascending(insert_fan(fans, fan)),
        insert_fan(fans, fan).len() == fans.len() + 1,
        forall|i: int|
            0 <= i < insert_fan(fans, fan).len() ==> (#[trigger] insert_fan(fans, fan)[i]).index
                <= fan.index || (fans.len() > 0 && insert_fan(fans, fan)[i].index
                <= fans.last().index),
    decreases fans.len(),
{
    if fans.len() > 0 && fans.last().index > fan.index {
        lemma_insert_ascending(fans.drop_last(), fan);
    }
}

/// The fans are in ascending order of their numbers.
pub proof fn fans_are_in_order(fans: Seq<FanStemView>)
    ensures
        ascending(ordered(fans)),
    decreases fans.len(),
{
    if fans.len() > 0 {
        fans_are_in_order(fans.drop_last());
        lemma_insert_ascending(ordered(fans.drop_last()), fans.last());
    }
}

/// One more fan is the last one with its number, and changes no other.
proof fn lemma_insert_keeps(fans: Seq<FanStemView>, fan: FanStemView, index: nat)
    ensures
        insert_fan(fans, fan).len() == fans.len() + 1,
        with_index(insert_fan(fans, fan), index) == (if fan.index == index {
            with_index(fans, index).push(fan)
        } else {
            with_index(fans, index)
        }),
    decreases fans.len(),
{
    if fans.len() == 0 || fans.last().index <= fan.index {
        assert(fans.push(fan).drop_last() =~= fans);
    } else {
        let rest = fans.drop_last();
        lemma_insert_keeps(rest, fan, index);
        assert(insert_fan(rest, fan).push(fans.last()).drop_last() =~= insert_fan(rest, fan));
    }
}

/// No fan is lost or added when fans are put in order, and fans with the same number stay as they
/// came.
pub proof fn order_keeps_every_fan(fans: Seq<FanStemView>)
    ensures
        ordered(fans).len() == fans.len(),
        forall|index: nat| #[trigger]
            with_index(ordered(fans), index) == with_index(fans, index),
    decreases fans.len(),
{
    if fans.len() > 0 {
        let rest = fans.drop_last();
        order_keeps_every_fan(rest);
        lemma_insert_keeps(ordered(rest), fans.last(), 0);
        assert forall|index: nat| #[trigger]
            with_index(ordered(fans), index) == with_index(fans, index) by {
            lemma_insert_keeps(ordered(rest), fans.last(), index);
            assert(with_index(ordered(rest), index) == with_index(rest, index));
        }
    }
}

/// Whether a CPU sensor was opened and gave a temperature.
pub open spec fn is_usable(candidate: Option<RawRead>) -> bool {
    candidate matches Some(raw) && raw_temperature(raw) is Ok
}

/// The first of the sensors that gives a temperature.
pub open spec fn first_usable(candidates: Seq<Option<RawRead>>) -> Option<nat>
    decreases candidates.len(),
{
    if candidates.len() == 0 {
        None
    } else if is_usable(candidates[0]) {
        Some(0)
    } else {
        match first_usable(candidates.drop_first()) {
            Some(i) => Some(i + 1),
            None => None,
        }
    }
}

/// A sensor that gives a temperature, with none before it, is the first.
proof fn lemma_first_usable(candidates: Seq<Option<RawRead>>, i: int)
    requires
        0 <= i <= candidates.len(),
        i < candidates.len() ==> is_usable(candidates[i]),
        forall|j: int| 0 <= j < i ==> !is_usable(#[trigger] candidates[j]),
    ensures
        first_usable(candidates) == (if i < candidates.len() {
            Some(i as nat)
        } else {
            None
        }),
    decreases i,
{
    if i > 0 {
        let rest = candidates.drop_first();
        assert(!is_usable(candidates[0]));
        assert forall|j: int| 0 <= j < i - 1 implies !is_usable(#[trigger] rest[j]) by {
            assert(rest[j] == candidates[j + 1]);
        }
        lemma_first_usable(rest, i - 1);
    }
}

/// The CPU's sensor: the first one that gives a temperature. What could not be opened is `None`.
pub fn find_cpu_temp_file(candidates: &Vec<Option<RawRead>>) -> (r: Result<usize, Error>)
    ensures
        match first_usable(candidates@) {
            Some(k) => r is Ok && r->Ok_0 == k,
            None => r == Err::<usize, Error>(Error::NoCpu),
        },
        match r {
            Ok(i) => {
                &&& i < candidates.len()
                &&& is_usable(candidates@[i as int])
                &&& forall|j: int| 0 <= j < i ==> !is_usable(#[trigger] candidates@[j])
            },
            Err(e) => {
                &&& e == Error::NoCpu
                &&& forall|j: int|
                    0 <= j < candidates.len() ==> !is_usable(#[trigger] candidates@[j])
            },
        },
{
    let mut i: usize = 0;
    while i < candidates.len()
        invariant
            i <= candidates.len(),
            forall|j: int| 0 <= j < i ==> !is_usable(#[trigger] candidates@[j]),
        decreases candidates.len() - i,
    {
        if let Some(raw) = &candidates[i] {
            if read_temp_file(raw).is_ok() {
                proof {
                    lemma_first_usable(candidates@, i as int);
                }
                return Ok(i);
            }
        }
        i = i + 1;
    }
    proof {
        lemma_first_usable(candidates@, i as int);
    }
    Err(Error::NoCpu)
}

/// A fan that is not left to the SMC.
#[derive(Debug)]
pub struct TrackedFan {
    pub path: String,
    pub config: FanConfig,
}

impl View for TrackedFan {
    type V = (Seq<char>, FanConfigView);

    open spec fn view(&self) -> (Seq<char>, FanConfigView) {
        (self.path@, self.config@)
    }
}

/// What a list of fans says.
pub open spec fn tracked_views(v: Seq<TrackedFan>) -> Seq<(Seq<char>, FanConfigView)> {
    Seq::new(v.len(), |i: int| v[i]@)
}

/// Each fan with its configuration.
pub open spec fn configured(
    paths: Seq<Seq<char>>,
    configs: Seq<FanConfigView>,
) -> Seq<(Seq<char>, FanConfigView)> {
    Seq::new(
        if paths.len() <= configs.len() {
            paths.len()
        } else {
            configs.len()
        },
        |i: int| (paths[i], configs[i]),
    )
}

/// The fans that are left to the SMC, or those that are not.
pub open spec fn fans_with(
    fans: Seq<(Seq<char>, FanConfigView)>,
    auto: bool,
) -> Seq<(Seq<char>, FanConfigView)>
    decreases fans.len(),
{
    if fans.len() == 0 {
        Seq::empty()
    } else if fans.last().1.auto == auto {
        fans_with(fans.drop_last(), auto).push(fans.last())
    } else {
        fans_with(fans.drop_last(), auto)
    }
}

/// What the daemon does with the fans.
#[derive(Debug)]
pub struct FanPlan {
    /// Which fans are left to the SMC.
    pub auto_pattern: Vec<bool>,
    /// What gives those back to it, in case an earlier daemon did not.
    pub releases: Vec<Result<FanWrite, Error>>,
    /// The other fans; the fault, once the releases are done, where there are none.
    pub fans: Result<Vec<TrackedFan>, Error>,
}

/// Each write gives back the fan at the same place.
pub open spec fn all_released(
    releases: Seq<Result<FanWrite, Error>>,
    fans: Seq<(Seq<char>, FanConfigView)>,
) -> bool {
    &&& releases.len() == fans.len()
    &&& forall|i: int|
        0 <= i < releases.len() ==> gives_back(#[trigger] releases[i], fans[i].0)
}

/// Which fans are left to the SMC.
fn auto_flags(configs: &Vec<FanConfig>) -> (r: Vec<bool>)
    ensures
        r.len() == configs.len(),
        forall|i: int| 0 <= i < r.len() ==> (#[trigger] r@[i]) == configs@[i].auto,
{
    let mut r: Vec<bool> = Vec::new();
    let mut i: usize = 0;
    while i < configs.len()
        invariant
            i <= configs.len(),
            r.len() == i,
            forall|j: int| 0 <= j < i ==> (#[trigger] r@[j]) == configs@[j].auto,
        decreases configs.len() - i,
    {
        r.push(configs[i].auto);
        i = i + 1;
    }
    r
}

/// Parts the fans that are left to the SMC from those that the daemon controls.
pub fn plan_fans(paths: nonempty::NonEmpty<String>, configs: &Vec<FanConfig>) -> (r: FanPlan)
    ensures
        r.auto_pattern.len() == configs.len(),
        forall|i: int|
            0 <= i < configs.len() ==> (#[trigger] r.auto_pattern@[i]) == configs@[i].auto,
        ({
            let all = configured(path_list(paths), config_views(configs@));
            &&& all_released(r.releases@, fans_with(all, true))
            &&& match r.fans {
                Ok(fans) => {
                    &&& fans.len() > 0
                    &&& tracked_views(fans@) == fans_with(all, false)
                },
                Err(e) => e == Error::AllFansAuto && fans_with(all, false).len() == 0,
            }
        }),
{
    let ghost all = configured(path_list(paths), config_views(configs@));
    let auto_pattern: Vec<bool> = auto_flags(configs);
    let paths: Vec<String> = paths_into_vec(paths);
    let mut releases: Vec<Result<FanWrite, Error>> = Vec::new();
    let mut fans: Vec<TrackedFan> = Vec::new();
    let mut i: usize = 0;
    proof {
        assert(all.take(0) =~= Seq::<(Seq<char>, FanConfigView)>::empty());
        assert(tracked_views(fans@) =~= Seq::<(Seq<char>, FanConfigView)>::empty());
    }
    while i < paths.len() && i < configs.len()
        invariant
            i <= paths.len(),
            i <= configs.len(),
            all == configured(texts(paths@), config_views(configs@)),
            all_released(releases@, fans_with(all.take(i as int), true)),
            tracked_views(fans@) == fans_with(all.take(i as int), false),
        decreases paths.len() - i,
    {
        let ghost fan = all[i as int];
        proof {
            assert(all.take(i + 1).drop_last() =~= all.take(i as int));
            assert(all.take(i + 1).last() == fan);
            assert(fan == (paths@[i as int]@, configs@[i as int]@));
        }
        if configs[i].auto {
            releases.push(release_fan_to_smc(paths[i].as_str()));
        } else {
            let ghost before = tracked_views(fans@);
            fans.push(TrackedFan { path: paths[i].clone(), config: configs[i].clone() });
            assert(tracked_views(fans@) =~= before.push(fan));
        }
        i = i + 1;
    }
    assert(all.take(i as int) =~= all);
    if fans.len() == 0 {
        return FanPlan { auto_pattern, releases, fans: Err(Error::AllFansAuto) };
    }
    FanPlan { auto_pattern, releases, fans: Ok(fans) }
}

/// Every fan is either given back to the SMC or controlled.
pub proof fn every_fan_has_its_place(fans: Seq<(Seq<char>, FanConfigView)>)
    ensures
        fans_with(fans, true).len() + fans_with(fans, false).len() == fans.len(),
        forall|i: int| #![trigger fans[i]]
            0 <= i < fans.len() ==> fans_with(fans, fans[i].1.auto).contains(fans[i]),
        forall|i: int|
            0 <= i < fans_with(fans, true).len() ==> (#[trigger] fans_with(fans, true)[i]).1.auto,
        forall|i: int|
            0 <= i < fans_with(fans, false).len() ==> !(
            #[trigger] fans_with(fans, false)[i]).1.auto,
    decreases fans.len(),
{
    if fans.len() > 0 {
        let rest = fans.drop_last();
        every_fan_has_its_place(rest);
        assert forall|i: int| #![trigger fans[i]] 0 <= i < fans.len() implies fans_with(
            fans,
            fans[i].1.auto,
        ).contains(fans[i]) by {
            let auto = fans[i].1.auto;
            let before = fans_with(rest, auto);
            let now = fans_with(fans, auto);
            if i < rest.len() {
                assert(rest[i] == fans[i]);
                let j = choose|j: int| 0 <= j < before.len() && before[j] == fans[i];
                assert(now[j] == fans[i]);
            } else {
                assert(now[now.len() - 1] == fans[i]);
            }
        }
    }
}

/// What drives each of the fans.
pub fn sensor_lists(fans: &Vec<TrackedFan>) -> (r: Vec<Vec<SensorSpec>>)
    ensures
        spec_lists(r@) == Seq::new(fans@.len(), |i: int| fans@[i]@.1.sensors),
{
    let mut r: Vec<Vec<SensorSpec>> = Vec::new();
    let mut i: usize = 0;
    while i < fans.len()
        invariant
            i <= fans.len(),
            r.len() == i,
            forall|j: int|
                0 <= j < i ==> sensor_views((#[trigger] r@[j])@) == fans@[j]@.1.sensors,
        decreases fans.len() - i,
    {
        let config: FanConfig = fans[i].config.clone();
        r.push(config.sensors);
        i = i + 1;
    }
    assert(spec_lists(r@) =~= Seq::new(fans@.len(), |i: int| fans@[i]@.1.sensors));
    r
}

/// The fans under control; there has to be one.
pub fn gather_fans(fans: Vec<FanController>) -> (r: Result<
    nonempty::NonEmpty<FanController>,
    Error,
>)
    ensures
        match r {
            Ok(list) => fans.len() > 0 && fan_list(list) == fans@,
            Err(e) => fans.len() == 0 && e == Error::NoFan,
        },
{
    match fans_from_vec(fans) {
        Some(list) => Ok(list),
        None => Err(Error::NoFan),
    }
}

/// Whether the writes give back all of the fans, each its own.
pub open spec fn gives_all_back(writes_out: Seq<FanWrite>, fans: Seq<FanController>) -> bool {
    &&& writes_out.len() == fans.len()
    &&& forall|i: int|
        0 <= i < fans.len() ==> writes(#[trigger] writes_out[i], fans[i].target_file(), "0"@)
}

/// What gives every fan back to the SMC.
fn release_all(fans: &nonempty::NonEmpty<FanController>) -> (r: Vec<FanWrite>)
    ensures
        gives_all_back(r@, fan_list(*fans)),
{
    let n: usize = fan_count(fans);
    let mut r: Vec<FanWrite> = Vec::new();
    let mut i: usize = 0;
    while i < n
        invariant
            i <= n,
            n == fan_list(*fans).len(),
            r.len() == i,
            forall|j: int|
                0 <= j < i ==> writes(
                    #[trigger] r@[j],
                    fan_list(*fans)[j].target_file(),
                    "0"@,
                ),
        decreases n - i,
    {
        if let Some(fan) = fan_at(fans, i) {
            r.push(fan.release_to_auto());
        }
        i = i + 1;
    }
    r
}

/// How the daemon ended, out of how its loop ended and what removing the PID file came to.
pub open spec fn last_word(result: Result<(), Error>, pid_res: Result<(), Error>) -> Result<
    (),
    Error,
> {
    match result {
        Err(e) => Err(e),
        Ok(_) => pid_res,
    }
}

/// The end of the daemon, once its loop is over.
#[derive(Debug)]
pub struct Shutdown {
    /// What gives the fans back to the SMC.
    pub releases: Vec<FanWrite>,
    /// How the loop ended.
    pub result: Result<(), Error>,
}

/// Ends the daemon: however the loop ended, every fan is given back to the SMC.
pub fn shut_down(
    fans: &nonempty::NonEmpty<FanController>,
    result: Result<(), Error>,
) -> (r: Shutdown)
    ensures
        gives_all_back(r.releases@, fan_list(*fans)),
        r.result == result,
{
    Shutdown { releases: release_all(fans), result }
}

impl Shutdown {
    /// How the daemon ended: a fault of the loop comes before one in removing the PID file.
    pub fn exit_result(self, pid_res: Result<(), Error>) -> (r: Result<(), Error>)
        ensures
            r == last_word(self.result, pid_res),
            r == (if self.result is Err {
                self.result
            } else {
                pid_res
            }),
    {
        match (self.result, pid_res) {
            (Err(err), _) => Err(err),
            (Ok(()), pid_res) => pid_res,
        }
    }
}

/// Nobody but user zero is root.
pub proof fn only_user_zero_is_root(euid: u32)
    ensures
        is_root(0),
        euid > 0 ==> !is_root(euid),
{
}

/// A daemon that runs, and a PID file that is there and cannot be read, keep the daemon from
/// starting; else it writes its own PID.
pub proof fn running_daemon_keeps_another_from_starting(file: PidRead, running: bool, pid: u32)
    ensures
        pid_outcome(file, running, pid) is Err <==> (file is Pid && running) || file is Failed,
        file is Pid && running ==> pid_outcome(file, running, pid) == Err::<Seq<char>, Error>(
            Error::AlreadyRunning,
        ),
        file matches PidRead::Failed(cause) ==> pid_outcome(file, running, pid) == Err::<
            Seq<char>,
            Error,
        >(Error::PidRead(cause)),
        pid_outcome(file, running, pid) matches Ok(text) ==> number(text, 10, u32::MAX as nat)
            == Some(pid as nat),
{
    decimal_reads_back(pid as nat, u32::MAX as nat);
}

/// A process is looked for under its number in `/proc`.
pub proof fn process_is_looked_for_by_its_number(pid: nat)
    ensures
        proc_path_of(decimal(pid)) == "/proc/"@ + decimal(pid),
{
    reveal_strlit("/");
    lemma_decimal_digits(pid);
    let s = decimal(pid);
    if starts_with(s, "/"@) {
        assert(s.take(1)[0] == "/"@[0]);
        assert(48 <= s[0] as u32);
    }
}

/// The SMC's monitor is the first one with the name `macsmc_hwmon`, white space around it left out.
pub proof fn first_monitor_with_the_name_is_taken(hwmons: Seq<HwmonName>)
    ensures
        forall|i: int| #![trigger hwmons[i]]
            is_macsmc(hwmons[i]) <==> hwmons[i].name is Some && trim(hwmons[i].name->0@)
                == "macsmc_hwmon"@,
        first_macsmc(hwmons) matches Some(i) ==> i < hwmons.len() && is_macsmc(hwmons[i as int])
            && forall|j: int| 0 <= j < i ==> !is_macsmc(#[trigger] hwmons[j]),
        first_macsmc(hwmons) is None ==> forall|j: int|
            0 <= j < hwmons.len() ==> !is_macsmc(#[trigger] hwmons[j]),
    decreases hwmons.len(),
{
    if hwmons.len() > 0 {
        let rest = hwmons.drop_first();
        first_monitor_with_the_name_is_taken(rest);
        if !is_macsmc(hwmons[0]) {
            assert forall|j: int|
                0 <= j < hwmons.len() && (first_macsmc(rest) matches Some(i) ==> j < i
                    + 1) implies !is_macsmc(#[trigger] hwmons[j]) by {
                if j > 0 {
                    assert(rest[j - 1] == hwmons[j]);
                }
            }
        }
    }
}

/// The CPU's sensor is the first one that was opened and gives a temperature.
pub proof fn first_sensor_that_works_is_taken(candidates: Seq<Option<RawRead>>)
    ensures
        forall|i: int| #![trigger candidates[i]]
            is_usable(candidates[i]) <==> candidates[i] is Some && raw_temperature(
                candidates[i]->0,
            ) is Ok,
        first_usable(candidates) matches Some(i) ==> i < candidates.len() && is_usable(
            candidates[i as int],
        ) && forall|j: int| 0 <= j < i ==> !is_usable(#[trigger] candidates[j]),
        first_usable(candidates) is None ==> forall|j: int|
            0 <= j < candidates.len() ==> !is_usable(#[trigger] candidates[j]),
    decreases candidates.len(),
{
    if candidates.len() > 0 {
        let rest = candidates.drop_first();
        first_sensor_that_works_is_taken(rest);
        if !is_usable(candidates[0]) {
            assert forall|j: int|
                0 <= j < candidates.len() && (first_usable(rest) matches Some(i) ==> j < i
                    + 1) implies !is_usable(#[trigger] candidates[j]) by {
                if j > 0 {
                    assert(rest[j - 1] == candidates[j]);
                }
            }
        }
    }
}

/// The file `fanN_input` is that of the fan with the number N, for every number, and the other
/// files of the fan are named with `fanN`.
pub proof fn input_file_names_its_fan(n: nat)
    requires
        n <= u32::MAX,
    ensures
        named_fan("fan"@ + decimal(n) + "_input"@) == Some(
            FanStemView { index: n, stem: "fan"@ + decimal(n) },
        ),
{
    reveal_strlit("fan");
    reveal_strlit("_input");
    let stem = "fan"@ + decimal(n);
    let name = stem + "_input"@;
    decimal_reads_back(n, u32::MAX as nat);
    assert(name.take(name.len() - 6) =~= stem);
    assert(name.skip(name.len() - 6) =~= "_input"@);
    assert(stem.take(3) =~= "fan"@);
    assert(stem.skip(3) =~= decimal(n));
}

/// A file that is a fan's has a name of `fan`, a number and `_input`, and the fan has that number.
pub proof fn fan_is_named_by_its_input_file(name: Seq<char>)
    ensures
        named_fan(name) matches Some(fan) ==> {
            &&& name == fan.stem + "_input"@
            &&& fan.stem.len() > 3
            &&& fan.stem.take(3) == "fan"@
            &&& number(fan.stem.skip(3), 10, u32::MAX as nat) == Some(fan.index)
        },
{
    reveal_strlit("fan");
    reveal_strlit("_input");
    if let Some(fan) = named_fan(name) {
        assert(name =~= name.take(name.len() - 6) + name.skip(name.len() - 6));
        assert(fan.stem.take(3) =~= "fan"@);
    }
}

/// Whether a file is a fan's.
pub open spec fn names_a_fan() -> spec_fn(Seq<char>) -> bool {
    |name: Seq<char>| named_fan(name) is Some
}

/// Each file that is a fan's gives one fan, and no other file gives any.
pub proof fn each_input_file_gives_one_fan(names: Seq<Seq<char>>)
    ensures
        named_fans(names) == names.filter(names_a_fan()).map_values(
            |name: Seq<char>| named_fan(name)->0,
        ),
    decreases names.len(),
{
    reveal(Seq::filter);
    let f = |name: Seq<char>| named_fan(name)->0;
    if names.len() > 0 {
        each_input_file_gives_one_fan(names.drop_last());
        let before = names.drop_last().filter(names_a_fan());
        assert(before.push(names.last()).map_values(f) =~= before.map_values(f).push(
            f(names.last()),
        ));
    } else {
        assert(names.filter(names_a_fan()).map_values(f) =~= Seq::<FanStemView>::empty());
    }
}

/// Among the fans with its number a fan is found.
proof fn lemma_with_index_contains(fans: Seq<FanStemView>, fan: FanStemView)
    ensures
        with_index(fans, fan.index).contains(fan) <==> fans.contains(fan),
    decreases fans.len(),
{
    if fans.len() > 0 {
        let rest = fans.drop_last();
        let before = with_index(rest, fan.index);
        let now = with_index(fans, fan.index);
        lemma_with_index_contains(rest, fan);
        if now.contains(fan) {
            let i = choose|i: int| 0 <= i < now.len() && now[i] == fan;
            if i < before.len() {
                assert(before[i] == fan);
                let j = choose|j: int| 0 <= j < rest.len() && rest[j] == fan;
                assert(fans[j] == fan);
            } else {
                assert(fans[fans.len() - 1] == fan);
            }
        }
        if fans.contains(fan) {
            let j = choose|j: int| 0 <= j < fans.len() && fans[j] == fan;
            if j < rest.len() {
                assert(rest[j] == fan);
                let i = choose|i: int| 0 <= i < before.len() && before[i] == fan;
                assert(now[i] == fan);
            } else {
                assert(now[now.len() - 1] == fan);
            }
        }
    }
}

/// Every file `fanN_input` in the SMC's directory gives the path `fanN` there; there are as many
/// paths as such files.
pub proof fn every_fan_is_found(dir: Seq<char>, names: Seq<Seq<char>>, k: int, n: nat)
    requires
        0 <= k < names.len(),
        n <= u32::MAX,
        names[k] == "fan"@ + decimal(n) + "_input"@,
    ensures
        fan_paths(dir, ordered(named_fans(names))).contains(dir + "/"@ + ("fan"@ + decimal(n))),
        fan_paths(dir, ordered(named_fans(names))).len() == names.filter(names_a_fan()).len(),
{
    let fan = FanStemView { index: n, stem: "fan"@ + decimal(n) };
    let found = named_fans(names);
    let kept = names.filter(names_a_fan());
    input_file_names_its_fan(n);
    each_input_file_gives_one_fan(names);
    names.lemma_filter_contains(names_a_fan(), k);
    let j = choose|j: int| 0 <= j < kept.len() && kept[j] == names[k];
    assert(found[j] == fan);
    order_keeps_every_fan(found);
    lemma_with_index_contains(found, fan);
    lemma_with_index_contains(ordered(found), fan);
    assert(with_index(ordered(found), n) == with_index(found, n));
    let i = choose|i: int| 0 <= i < ordered(found).len() && ordered(found)[i] == fan;
    assert(fan_paths(dir, ordered(found))[i] == dir + "/"@ + ("fan"@ + decimal(n)));
}

/// The files of fans counted from one.
pub open spec fn counted_inputs(count: nat) -> Seq<Seq<char>> {
    Seq::new(count, |i: int| "fan"@ + decimal((i + 1) as nat) + "_input"@)
}

/// Fans in ascending order stay as they are when they are put in order.
proof fn lemma_ascending_is_ordered(fans: Seq<FanStemView>)
    requires
        ascending(fans),
    ensures
        ordered(fans) == fans,
    decreases fans.len(),
{
    if fans.len() > 0 {
        let rest = fans.drop_last();
        lemma_ascending_is_ordered(rest);
        if rest.len() > 0 {
            assert(fans[rest.len() - 1].index <= fans[rest.len() as int].index);
        }
        assert(rest.push(fans.last()) =~= fans);
    }
}

/// Fans that are counted from one get the sections in the same count: the first path is that of
/// `fan1`, the second that of `fan2`, and so on.
pub proof fn fans_line_up_with_their_sections(dir: Seq<char>, count: nat)
    requires
        count <= u32::MAX,
    ensures
        ({
            let paths = fan_paths(dir, ordered(named_fans(counted_inputs(count))));
            &&& paths.len() == count
            &&& forall|i: int| #![trigger paths[i]]
                0 <= i < count ==> paths[i] == dir + "/"@ + ("fan"@ + decimal((i + 1) as nat))
        }),
{
    lemma_counted_fans(count);
    lemma_ascending_is_ordered(named_fans(counted_inputs(count)));
}

/// What the files of fans counted from one give.
proof fn lemma_counted_fans(count: nat)
    requires
        count <= u32::MAX,
    ensures
        named_fans(counted_inputs(count)) == Seq::new(
            count,
            |i: int|
                FanStemView { index: (i + 1) as nat, stem: "fan"@ + decimal((i + 1) as nat) },
        ),
    decreases count,
{
    let names = counted_inputs(count);
    let fans = Seq::new(
        count,
        |i: int| FanStemView { index: (i + 1) as nat, stem: "fan"@ + decimal((i + 1) as nat) },
    );
    if count > 0 {
        lemma_counted_fans((count - 1) as nat);
        assert(names.drop_last() =~= counted_inputs((count - 1) as nat));
        input_file_names_its_fan(count);
        assert(names.last() == "fan"@ + decimal(count) + "_input"@);
        assert(named_fans(names) =~= fans);
    } else {
        assert(named_fans(names) =~= fans);
    }
}

/// Whether a fan is left to the SMC, or is not.
pub open spec fn has_auto(auto: bool) -> spec_fn((Seq<char>, FanConfigView)) -> bool {
    |fan: (Seq<char>, FanConfigView)| fan.1.auto == auto
}

/// Each fan gets the configuration at its place, and is given back or controlled as that says, with
/// the configuration as it is.
pub proof fn each_fan_gets_the_configuration_at_its_place(
    paths: Seq<Seq<char>>,
    configs: Seq<FanConfigView>,
    auto: bool,
)
    ensures
        ({
            let all = configured(paths, configs);
            &&& all.len() <= paths.len() && all.len() <= configs.len()
            &&& all.len() == paths.len() || all.len() == configs.len()
            &&& forall|i: int| #![trigger all[i]]
                0 <= i < all.len() ==> all[i].0 == paths[i] && all[i].1 == configs[i]
            &&& fans_with(all, auto) == all.filter(has_auto(auto))
        }),
{
    lemma_fans_with(configured(paths, configs), auto);
}

/// The fans with and without `auto` are kept in their order.
proof fn lemma_fans_with(fans: Seq<(Seq<char>, FanConfigView)>, auto: bool)
    ensures
        fans_with(fans, auto) == fans.filter(has_auto(auto)),
    decreases fans.len(),
{
    reveal(Seq::filter);
    if fans.len() > 0 {
        lemma_fans_with(fans.drop_last(), auto);
    }
}

/// Every fan that was under control gets a zero in its target at the end, each fan its own.
pub proof fn every_fan_gets_a_zero_at_the_end(
    writes_out: Seq<FanWrite>,
    fans: Seq<FanController>,
    i: int,
)
    requires
        gives_all_back(writes_out, fans),
        0 <= i < fans.len(),
    ensures
        writes_out.len() == fans.len(),
        writes_out[i].path@ == fans[i].target_file(),
        writes_out[i].text@ == "0"@,
{
    assert(writes(writes_out[i], fans[i].target_file(), "0"@));
}

/// A fault of the loop is the daemon's fault; without one, that of removing the PID file is.
pub proof fn fault_of_the_loop_is_the_daemons(a: Error, b: Result<(), Error>)
    ensures
        last_word(Err(a), b) == Err::<(), Error>(a),
        last_word(Ok(()), b) == b,
{
}

/// Each fan that is left to the SMC gets a zero in its own target, or a fault where its path names
/// nothing.
pub proof fn each_auto_fan_is_given_back(
    releases: Seq<Result<FanWrite, Error>>,
    fans: Seq<(Seq<char>, FanConfigView)>,
    i: int,
)
    requires
        all_released(releases, fans),
        0 <= i < fans.len(),
    ensures
        releases.len() == fans.len(),
        file_name(fans[i].0) is None ==> releases[i] == Err::<FanWrite, Error>(Error::NoFan),
        file_name(fans[i].0) is Some ==> {
            &&& releases[i] is Ok
            &&& suffixed(fans[i].0, "_target"@) == Some(releases[i]->Ok_0.path@)
            &&& releases[i]->Ok_0.text@ == "0"@
        },
{
    assert(gives_back(releases[i], fans[i].0));
}

/// Whether a fan has an index.
pub open spec fn has_index(index: nat) -> spec_fn(FanStemView) -> bool {
    |fan: FanStemView| fan.index == index
}

/// Fans with one and the same index stay in the order in which they were found.
pub proof fn order_is_stable(fans: Seq<FanStemView>, index: nat)
    ensures
        ordered(fans).filter(has_index(index)) == fans.filter(has_index(index)),
{
    order_keeps_every_fan(fans);
    lemma_with_index(ordered(fans), index);
    lemma_with_index(fans, index);
    assert(with_index(ordered(fans), index) == with_index(fans, index));
}

/// The fans with an index are kept in their order.
proof fn lemma_with_index(fans: Seq<FanStemView>, index: nat)
    ensures
        with_index(fans, index) == fans.filter(has_index(index)),
    decreases fans.len(),
{
    reveal(Seq::filter);
    if fans.len() > 0 {
        lemma_with_index(fans.drop_last(), index);
    }
}

} // verus!
