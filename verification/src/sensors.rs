//! The temperature sensors: what is read of them, and what the reading says.

use crate::error::{Error, IoCause};
use crate::text::{
    decimal, decimal_reads_back, is_white_space, lemma_decimal_digits, number, number_fault,
    number_or_fault, read_number, trim_end, trim_end_drops_only_white_space, trim_end_text,
};
use vstd::prelude::*;
use vstd::string::*;
use vstd::utf8::*;

verus! {

/// What a temperature file says: thousandths of a degree, in decimal. Degrees are kept in a byte
/// and wrap around there.
pub open spec fn temperature(bytes: Seq<u8>) -> Result<u8, Error> {
    if !valid_utf8(bytes) {
        Err(Error::TempUtf8)
    } else {
        let digits = trim_end(decode_utf8(bytes));
        match number(digits, 10, u32::MAX as nat) {
            None => Err(Error::TempParse(number_fault(digits, 10, u32::MAX as nat)->0)),
            Some(thousandths) => Ok(((thousandths / 1000) % 256) as u8),
        }
    }
}

/// Calls `core::str::from_utf8`: it succeeds on valid UTF-8, and gives the text that the bytes
/// encode.
#[verifier::external_body]
fn text_of_bytes(bytes: &[u8]) -> (r: Option<&str>)
    ensures
        r is Some <==> valid_utf8(bytes@),
        r is Some ==> r->0@ == decode_utf8(bytes@),
{
    core::str::from_utf8(bytes).ok()
}

/// Reads the temperature out of the bytes of its file.
pub fn parse_temp(bytes: &[u8]) -> (r: Result<u8, Error>)
    ensures
        r == temperature(bytes@),
{
    let s: &str = match text_of_bytes(bytes) {
        Some(s) => s,
        None => return Err(Error::TempUtf8),
    };
    match read_number(trim_end_text(s), 10, u32::MAX) {
        Ok(thousandths) => {
            let degrees: u32 = thousandths / 1000;
            assert(degrees as u8 == degrees % 256) by (bit_vector);
            Ok(#[verifier::truncate] (degrees as u8))
        },
        Err(fault) => Err(Error::TempParse(fault)),
    }
}

/// What reading a sensor's file came to.
#[derive(Debug)]
pub enum RawRead {
    /// The file could not be read.
    Failed(IoCause),
    /// What stands at the start of the file.
    Bytes(Vec<u8>),
}

/// What a reading of a sensor's file says.
pub open spec fn raw_temperature(raw: RawRead) -> Result<u8, Error> {
    match raw {
        RawRead::Failed(cause) => Err(Error::TempRead(cause)),
        RawRead::Bytes(bytes) => temperature(bytes@),
    }
}

/// Reads the temperature out of what reading its file came to.
pub fn read_temp_file(raw: &RawRead) -> (r: Result<u8, Error>)
    ensures
        r == raw_temperature(*raw),
{
    match raw {
        RawRead::Failed(cause) => Err(Error::TempRead(*cause)),
        RawRead::Bytes(bytes) => parse_temp(bytes.as_slice()),
    }
}

/// Where a fan finds one of its temperatures among the readings.
#[derive(Clone, Copy, Debug, PartialEq, Eq, Structural)]
pub enum SensorIdx {
    Cpu,
    Hwmon(usize),
    Nvidia(usize),
}

/// The temperatures of one tick.
#[derive(Debug)]
pub struct SensorReadings {
    pub cpu: Option<u8>,
    pub hwmons: Vec<u8>,
    pub nvidia: Vec<u8>,
}

/// Whether the readings hold the temperature that is looked for.
pub open spec fn has_reading(readings: SensorReadings, sensor: SensorIdx) -> bool {
    match sensor {
        SensorIdx::Cpu => readings.cpu is Some,
        SensorIdx::Hwmon(i) => i < readings.hwmons.len(),
        SensorIdx::Nvidia(i) => i < readings.nvidia.len(),
    }
}

/// The temperature that is looked for.
pub open spec fn reading(readings: SensorReadings, sensor: SensorIdx) -> u8 {
    match sensor {
        SensorIdx::Cpu => readings.cpu->0,
        SensorIdx::Hwmon(i) => readings.hwmons@[i as int],
        SensorIdx::Nvidia(i) => readings.nvidia@[i as int],
    }
}

/// How long the temperatures of NVIDIA GPUs are kept before they are read again, in nanoseconds.
pub const NVML_MIN_INTERVAL: u64 = 2_000_000_000;

/// The NVIDIA GPUs to sample. The case fans only bring them fresh air, so they are read at a low
/// rate and what was read is kept in between.
#[derive(Debug)]
pub struct NvidiaSensors {
    /// The GPUs, each by its index.
    pub indices: Vec<u32>,
    /// The temperature of each GPU.
    pub cache: Vec<u8>,
    /// When the GPUs were last read, in nanoseconds.
    pub last_read: Option<u64>,
}

/// A temperature in a byte; a greater one is the greatest that fits.
pub open spec fn capped(temp: u32) -> u8 {
    if temp > 255 {
        255
    } else {
        temp as u8
    }
}

/// The number of samples before the first one that failed.
pub open spec fn good_samples(samples: Seq<Result<u32, String>>) -> nat
    decreases samples.len(),
{
    if samples.len() == 0 || samples[0] is Err {
        0
    } else {
        1 + good_samples(samples.drop_first())
    }
}

/// The temperatures after samples were taken in order, up to the first one that failed.
pub open spec fn sampled(cache: Seq<u8>, samples: Seq<Result<u32, String>>) -> Seq<u8> {
    Seq::new(
        cache.len(),
        |i: int|
            if i < good_samples(samples) {
                capped(samples[i]->Ok_0)
            } else {
                cache[i]
            },
    )
}

/// No more samples are good than there are.
proof fn lemma_good_samples_bound(samples: Seq<Result<u32, String>>)
    ensures
        good_samples(samples) <= samples.len(),
    decreases samples.len(),
{
    if samples.len() > 0 {
        lemma_good_samples_bound(samples.drop_first());
    }
}

/// The samples before the failed one are good, and the next one is not.
proof fn lemma_good_samples(samples: Seq<Result<u32, String>>, k: nat)
    requires
        k <= samples.len(),
        forall|i: int| 0 <= i < k ==> (#[trigger] samples[i]) is Ok,
        k == samples.len() || samples[k as int] is Err,
    ensures
        good_samples(samples) == k,
    decreases samples.len(),
{
    if k > 0 {
        let rest = samples.drop_first();
        assert forall|i: int| 0 <= i < k - 1 implies (#[trigger] rest[i]) is Ok by {
            assert(rest[i] == samples[i + 1]);
        }
        assert(samples[0] is Ok);
        lemma_good_samples(rest, (k - 1) as nat);
    }
}

/// Whether the GPUs were read at `now` as they are to be: they were sampled where it was time to,
/// and the answer is what is known of them then.
pub open spec fn polled(
    before: NvidiaSensors,
    after: NvidiaSensors,
    now: u64,
    samples: Seq<Result<u32, String>>,
    r: Result<Vec<u8>, Error>,
) -> bool {
    let good = good_samples(samples) as int;
    if !before.is_due(now) {
        &&& r matches Ok(temps) && temps@ == before.cache@
        &&& after.cache@ == before.cache@
        &&& after.last_read == before.last_read
    } else if good == samples.len() {
        &&& r matches Ok(temps) && temps@ == sampled(before.cache@, samples)
        &&& after.cache@ == sampled(before.cache@, samples)
        &&& after.last_read == Some(now)
    } else {
        &&& r matches Err(Error::NvmlRead(what)) && what@ == samples[good]->Err_0@
        &&& after.cache@ == sampled(before.cache@, samples)
        &&& after.last_read == before.last_read
    }
}

impl NvidiaSensors {
    /// There is room for the temperature of each GPU.
    pub open spec fn well_formed(self) -> bool {
        self.cache.len() == self.indices.len()
    }

    /// Whether it is time to read the GPUs.
    pub open spec fn is_due(self, now: u64) -> bool {
        self.last_read matches Some(then) ==> now - then >= NVML_MIN_INTERVAL
    }

    /// GPUs that were never read.
    pub fn new(indices: Vec<u32>) -> (r: NvidiaSensors)
        ensures
            r.well_formed(),
            r.indices == indices,
            r.cache@ == Seq::new(indices@.len(), |i: int| 0u8),
            r.last_read is None,
    {
        let mut cache: Vec<u8> = Vec::new();
        let mut i: usize = 0;
        while i < indices.len()
            invariant
                i <= indices.len(),
                cache@ == Seq::new(i as nat, |j: int| 0u8),
            decreases indices.len() - i,
        {
            cache.push(0);
            assert(cache@ =~= Seq::new((i + 1) as nat, |j: int| 0u8));
            i = i + 1;
        }
        NvidiaSensors { indices, cache, last_read: None }
    }

    /// Whether it is time to read the GPUs: they were never read, or long enough ago.
    pub fn due(&self, now: u64) -> (r: bool)
        ensures
            r == self.is_due(now),
    {
        match self.last_read {
            None => true,
            Some(then) => now >= then && now - then >= NVML_MIN_INTERVAL,
        }
    }

    /// The temperature of each GPU: out of the samples where it was time to take them, else as they
    /// were. A failed sample ends the reading, and the next one is due at once.
    pub fn read(
        &mut self,
        now: u64,
        samples: &Vec<Result<u32, String>>,
    ) -> (r: Result<Vec<u8>, Error>)
        requires
            old(self).well_formed(),
            old(self).is_due(now) ==> samples.len() == old(self).indices.len(),
        ensures
            final(self).well_formed(),
            final(self).indices == old(self).indices,
            !old(self).is_due(now) ==> {
                &&& r is Ok
                &&& r->Ok_0@ == old(self).cache@
                &&& final(self).cache@ == old(self).cache@
                &&& final(self).last_read == old(self).last_read
            },
            old(self).is_due(now) ==> {
                let good = good_samples(samples@) as int;
                &&& final(self).cache@ == sampled(old(self).cache@, samples@)
                &&& good == samples.len() ==> {
                    &&& r is Ok
                    &&& r->Ok_0@ == final(self).cache@
                    &&& final(self).last_read == Some(now)
                }
                &&& good < samples.len() ==> {
                    &&& r matches Err(Error::NvmlRead(what)) && what@ == samples@[good]->Err_0@
                    &&& final(self).last_read == old(self).last_read
                }
            },
            polled(*old(self), *final(self), now, samples@, r),
    {
        if self.due(now) {
            let n: usize = self.indices.len();
            let ghost before = self.cache@;
            let mut i: usize = 0;
            while i < n
                invariant
                    i <= n,
                    n == samples.len(),
                    n == self.indices.len(),
                    self.well_formed(),
                    self.indices == old(self).indices,
                    self.last_read == old(self).last_read,
                    before == old(self).cache@,
                    before.len() == n,
                    old(self).is_due(now),
                    forall|j: int| 0 <= j < i ==> (#[trigger] samples@[j]) is Ok,
                    forall|j: int|
                        0 <= j < n ==> (#[trigger] self.cache@[j]) == (if j < i {
                            capped(samples@[j]->Ok_0)
                        } else {
                            before[j]
                        }),
                decreases n - i,
            {
                let temp: u32 = match &samples[i] {
                    Ok(temp) => *temp,
                    Err(what) => {
                        proof {
                            lemma_good_samples(samples@, i as nat);
                            assert(self.cache@ =~= sampled(before, samples@));
                        }
                        return Err(Error::NvmlRead(what.clone()));
                    },
                };
                let slot: u8 = if temp > 255 {
                    255
                } else {
                    temp as u8
                };
                self.cache.set(i, slot);
                i = i + 1;
            }
            proof {
                lemma_good_samples(samples@, n as nat);
                assert(self.cache@ =~= sampled(before, samples@));
            }
            self.last_read = Some(now);
        }
        Ok(copy_temps(&self.cache))
    }
}

/// A copy of a list of temperatures.
fn copy_temps(temps: &Vec<u8>) -> (r: Vec<u8>)
    ensures
        r@ == temps@,
{
    let mut r: Vec<u8> = Vec::new();
    let mut i: usize = 0;
    while i < temps.len()
        invariant
            i <= temps.len(),
            r@ == temps@.take(i as int),
        decreases temps.len() - i,
    {
        r.push(temps[i]);
        assert(r@ =~= temps@.take(i + 1));
        i = i + 1;
    }
    assert(temps@.take(i as int) =~= temps@);
    r
}

/// The sensors of the daemon, each of them once, however many fans look at it.
#[derive(Debug)]
pub struct SensorPool {
    /// Some fan looks at the CPU.
    pub cpu: bool,
    /// The temperature files of the GPUs.
    pub hwmons: Vec<String>,
    pub nvidia: Option<NvidiaSensors>,
}

/// What reading each sensor of a pool came to.
#[derive(Debug)]
pub struct RawSensors {
    pub cpu: Option<RawRead>,
    pub hwmons: Vec<RawRead>,
    /// The temperature of each NVIDIA GPU, where it was time to read them; what went wrong for one
    /// that could not be read.
    pub nvidia: Vec<Result<u32, String>>,
}

/// The temperatures that readings of files say, or the first fault among them.
pub open spec fn raw_temperatures(raw: Seq<RawRead>) -> Result<Seq<u8>, Error>
    decreases raw.len(),
{
    if raw.len() == 0 {
        Ok(Seq::empty())
    } else {
        match (raw_temperatures(raw.drop_last()), raw_temperature(raw.last())) {
            (Err(e), _) => Err(e),
            (Ok(_), Err(e)) => Err(e),
            (Ok(temps), Ok(temp)) => Ok(temps.push(temp)),
        }
    }
}

/// A fault among the first readings is the fault of all.
proof fn lemma_raw_fault(raw: Seq<RawRead>, k: int)
    requires
        0 <= k <= raw.len(),
        raw_temperatures(raw.take(k)) is Err,
    ensures
        raw_temperatures(raw) == raw_temperatures(raw.take(k)),
    decreases raw.len() - k,
{
    if k == raw.len() {
        assert(raw.take(k) =~= raw);
    } else {
        assert(raw.take(k + 1).drop_last() =~= raw.take(k));
        lemma_raw_fault(raw, k + 1);
    }
}

/// There is a temperature for each reading.
proof fn lemma_raw_len(raw: Seq<RawRead>)
    ensures
        raw_temperatures(raw) matches Ok(temps) ==> temps.len() == raw.len(),
    decreases raw.len(),
{
    if raw.len() > 0 {
        lemma_raw_len(raw.drop_last());
    }
}

/// Reads the temperatures out of what reading their files came to.
fn read_hwmons(raw: &Vec<RawRead>) -> (r: Result<Vec<u8>, Error>)
    ensures
        match r {
            Ok(temps) => raw_temperatures(raw@) == Ok::<Seq<u8>, Error>(temps@),
            Err(e) => raw_temperatures(raw@) == Err::<Seq<u8>, Error>(e),
        },
{
    let mut temps: Vec<u8> = Vec::new();
    let mut i: usize = 0;
    assert(raw@.take(0) =~= Seq::<RawRead>::empty());
    assert(temps@ =~= Seq::<u8>::empty());
    while i < raw.len()
        invariant
            i <= raw.len(),
            raw_temperatures(raw@.take(i as int)) == Ok::<Seq<u8>, Error>(temps@),
        decreases raw.len() - i,
    {
        assert(raw@.take(i + 1).drop_last() =~= raw@.take(i as int));
        match read_temp_file(&raw[i]) {
            Ok(temp) => temps.push(temp),
            Err(e) => {
                proof {
                    lemma_raw_fault(raw@, i + 1);
                }
                return Err(e);
            },
        }
        i = i + 1;
    }
    assert(raw@.take(i as int) =~= raw@);
    Ok(temps)
}

/// The first fault in what is read of the files of a pool's sensors, the CPU's file first.
pub open spec fn file_fault(raw: RawSensors) -> Option<Error> {
    if raw.cpu is Some && raw_temperature(raw.cpu->0) is Err {
        Some(raw_temperature(raw.cpu->0)->Err_0)
    } else if raw_temperatures(raw.hwmons@) is Err {
        Some(raw_temperatures(raw.hwmons@)->Err_0)
    } else {
        None
    }
}

/// Whether a pool was read at `now` as it is to be: the files first, then the GPUs, up to the first
/// fault.
pub open spec fn pool_read(
    before: SensorPool,
    after: SensorPool,
    now: u64,
    raw: RawSensors,
    r: Result<SensorReadings, Error>,
) -> bool {
    match (file_fault(raw), r) {
        (Some(fault), r) => r == Err::<SensorReadings, Error>(fault) && after == before,
        (None, Err(e)) => {
            &&& before.nvidia is Some
            &&& after.nvidia is Some
            &&& polled(before.nvidia->0, after.nvidia->0, now, raw.nvidia@, Err(e))
        },
        (None, Ok(readings)) => {
            &&& raw.cpu is Some <==> readings.cpu is Some
            &&& raw.cpu matches Some(cpu) ==> raw_temperature(cpu) == Ok::<u8, Error>(
                readings.cpu->0,
            )
            &&& raw_temperatures(raw.hwmons@) == Ok::<Seq<u8>, Error>(readings.hwmons@)
            &&& before.nvidia is Some <==> after.nvidia is Some
            &&& before.nvidia is Some ==> polled(
                before.nvidia->0,
                after.nvidia->0,
                now,
                raw.nvidia@,
                Ok(readings.nvidia),
            )
            &&& before.nvidia is None ==> readings.nvidia@.len() == 0
        },
    }
}

impl SensorPool {
    /// The pool is fit to be read.
    pub open spec fn well_formed(self) -> bool {
        self.nvidia matches Some(nvidia) ==> nvidia.well_formed()
    }

    /// Whether it is time to read the NVIDIA GPUs, where there are any.
    pub open spec fn is_nvidia_due(self, now: u64) -> bool {
        self.nvidia matches Some(nvidia) && nvidia.is_due(now)
    }

    /// Whether the NVIDIA GPUs are to be read: it is time to, and the files gave no fault.
    pub open spec fn wants_gpus(self, now: u64, raw: RawSensors) -> bool {
        self.is_nvidia_due(now) && file_fault(raw) is None
    }

    /// Each sensor of the pool was read once; the NVIDIA GPUs, where they are to be read.
    pub open spec fn covers(self, now: u64, raw: RawSensors) -> bool {
        &&& raw.cpu is Some <==> self.cpu
        &&& raw.hwmons.len() == self.hwmons.len()
        &&& self.wants_gpus(now, raw) ==> raw.nvidia.len() == self.nvidia->0.indices.len()
    }

    /// The readings hold the temperature of each sensor of the pool.
    pub open spec fn is_read_by(self, readings: SensorReadings) -> bool {
        &&& readings.cpu is Some <==> self.cpu
        &&& readings.hwmons.len() == self.hwmons.len()
        &&& self.nvidia matches Some(nvidia) ==> readings.nvidia.len() == nvidia.indices.len()
    }

    /// Whether it is time to read the NVIDIA GPUs, where there are any.
    pub fn nvidia_due(&self, now: u64) -> (r: bool)
        ensures
            r == self.is_nvidia_due(now),
    {
        match &self.nvidia {
            Some(nvidia) => nvidia.due(now),
            None => false,
        }
    }

    /// Whether the NVIDIA GPUs are to be read, once the files were.
    pub fn gpus_wanted(&self, now: u64, raw: &RawSensors) -> (r: bool)
        ensures
            r == self.wants_gpus(now, *raw),
    {
        if !self.nvidia_due(now) {
            return false;
        }
        if let Some(file) = &raw.cpu {
            if read_temp_file(file).is_err() {
                return false;
            }
        }
        read_hwmons(&raw.hwmons).is_ok()
    }

    /// The temperatures of one tick, out of what reading each sensor once came to; or the first
    /// fault, the files before the NVIDIA GPUs.
    pub fn read_all(&mut self, now: u64, raw: &RawSensors) -> (r: Result<SensorReadings, Error>)
        requires
            old(self).well_formed(),
            old(self).covers(now, *raw),
        ensures
            final(self).well_formed(),
            final(self).cpu == old(self).cpu,
            final(self).hwmons == old(self).hwmons,
            final(self).nvidia is Some <==> old(self).nvidia is Some,
            final(self).nvidia is Some ==> final(self).nvidia->0.indices
                == old(self).nvidia->0.indices,
            r matches Ok(readings) ==> old(self).is_read_by(readings),
            match file_fault(*raw) {
                Some(e) => {
                    &&& r == Err::<SensorReadings, Error>(e)
                    &&& *final(self) == *old(self)
                },
                None => {
                    let failed = old(self).is_nvidia_due(now) && good_samples(raw.nvidia@)
                        < raw.nvidia.len();
                    &&& failed ==> {
                        &&& r matches Err(Error::NvmlRead(what)) && what@ == raw.nvidia@[
                            good_samples(raw.nvidia@) as int
                        ]->Err_0@
                        &&& final(self).nvidia->0.last_read == old(self).nvidia->0.last_read
                    }
                    &&& !failed ==> {
                        &&& r is Ok
                        &&& r->Ok_0.cpu == (match raw.cpu {
                            Some(cpu) => Some(raw_temperature(cpu)->Ok_0),
                            None => None,
                        })
                        &&& r->Ok_0.hwmons@ == raw_temperatures(raw.hwmons@)->Ok_0
                        &&& r->Ok_0.nvidia@ == (match final(self).nvidia {
                            Some(nvidia) => nvidia.cache@,
                            None => Seq::empty(),
                        })
                    }
                    &&& old(self).is_nvidia_due(now) ==> final(self).nvidia->0.cache@ == sampled(
                        old(self).nvidia->0.cache@,
                        raw.nvidia@,
                    )
                    &&& old(self).is_nvidia_due(now) && !failed ==> {
                        final(self).nvidia->0.last_read == Some(now)
                    }
                    &&& old(self).nvidia is Some && !old(self).is_nvidia_due(now) ==> {
                        &&& final(self).nvidia->0.cache@ == old(self).nvidia->0.cache@
                        &&& final(self).nvidia->0.last_read == old(self).nvidia->0.last_read
                    }
                },
            },
            pool_read(*old(self), *final(self), now, *raw, r),
    {
        let cpu: Option<u8> = match &raw.cpu {
            Some(file) => match read_temp_file(file) {
                Ok(temp) => Some(temp),
                Err(e) => return Err(e),
            },
            None => None,
        };
        let hwmons: Vec<u8> = match read_hwmons(&raw.hwmons) {
            Ok(temps) => temps,
            Err(e) => return Err(e),
        };
        proof {
            lemma_good_samples_bound(raw.nvidia@);
            lemma_raw_len(raw.hwmons@);
        }
        let nvidia: Vec<u8> = match &mut self.nvidia {
            Some(nvidia) => match nvidia.read(now, &raw.nvidia) {
                Ok(temps) => temps,
                Err(e) => return Err(e),
            },
            None => Vec::new(),
        };
        Ok(SensorReadings { cpu, hwmons, nvidia })
    }
}

/// After the GPUs were read, they are left alone until the interval is over, and are read again
/// after it.
pub proof fn gpus_are_read_at_a_low_rate(nvidia: NvidiaSensors, read_at: u64, now: u64)
    requires
        nvidia.last_read == Some(read_at),
    ensures
        nvidia.is_due(now) <==> now - read_at >= NVML_MIN_INTERVAL,
{
}

/// White space after a number in decimal is no part of it.
proof fn lemma_number_before_white_space(n: nat, end: Seq<char>)
    requires
        forall|i: int| 0 <= i < end.len() ==> is_white_space(#[trigger] end[i]),
    ensures
        trim_end(decimal(n) + end) == decimal(n),
{
    let digits = decimal(n);
    let s = digits + end;
    lemma_decimal_digits(n);
    trim_end_drops_only_white_space(s);
    let k = trim_end(s).len() as int;
    assert(s[digits.len() - 1] == digits[digits.len() - 1]);
    if k < digits.len() {
        assert(is_white_space(s[digits.len() - 1]));
    }
    if k > digits.len() {
        assert(s[k - 1] == end[k - 1 - digits.len()]);
    }
    assert(s.take(digits.len() as int) =~= digits);
}

/// A file that holds thousandths of a degree in decimal, with or without white space after them, is
/// read as the whole degrees in them, as far as those fit a byte; more of them wrap around there.
pub proof fn temperature_is_in_whole_degrees(n: nat, end: Seq<char>)
    requires
        n <= u32::MAX,
        forall|i: int| 0 <= i < end.len() ==> is_white_space(#[trigger] end[i]),
    ensures
        temperature(encode_utf8(decimal(n) + end)) matches Ok(t) && {
            &&& n < 256_000 ==> 1000 * t <= n < 1000 * (t + 1)
            &&& exists|turns: int| #[trigger] (turns * 256_000) + 1000 * t <= n < turns * 256_000
                + 1000 * (t + 1)
        },
{
    let text = decimal(n) + end;
    let bytes = encode_utf8(text);
    encode_utf8_valid_utf8(text);
    encode_utf8_decode_utf8(text);
    lemma_number_before_white_space(n, end);
    decimal_reads_back(n, u32::MAX as nat);
    let degrees = n / 1000;
    let t = (degrees % 256) as u8;
    assert(temperature(bytes) == Ok::<u8, Error>(t));
    let turns = (degrees / 256) as int;
    assert(degrees == 256 * turns + t);
    assert(1000 * degrees <= n < 1000 * (degrees + 1));
    assert((turns * 256_000) + 1000 * t <= n < turns * 256_000 + 1000 * (t + 1));
}

/// A digit and a line feed are ASCII.
proof fn lemma_ascii(c: char)
    requires
        48 <= c as u32 <= 57 || c == '\n',
    ensures
        '\0' <= c <= '\u{7f}',
{
}

/// The bytes of a number of thousandths below 256 degrees, each digit a byte, with or without a
/// line feed after them, are read as the whole degrees in them.
pub proof fn digits_in_bytes_are_degrees(n: nat, bytes: Seq<u8>)
    requires
        n < 256_000,
        bytes.len() == decimal(n).len() || (bytes.len() == decimal(n).len() + 1 && bytes.last()
            == 10),
        forall|i: int| 0 <= i < decimal(n).len() ==> (#[trigger] bytes[i]) == decimal(n)[i] as u8,
    ensures
        temperature(bytes) matches Ok(t) && 1000 * t <= n < 1000 * (t + 1),
{
    let digits = decimal(n);
    let end: Seq<char> = if bytes.len() == digits.len() {
        Seq::empty()
    } else {
        seq!['\n']
    };
    let text = digits + end;
    lemma_decimal_digits(n);
    assert forall|i: int| 0 <= i < text.len() implies '\0' <= #[trigger] text[i] <= '\u{7f}' by {
        if i < digits.len() {
            assert(text[i] == digits[i]);
            assert(48 <= digits[i] as u32 <= 57);
        } else {
            assert(text[i] == '\n');
        }
        lemma_ascii(text[i]);
    }
    is_ascii_chars_encode_utf8(text);
    assert forall|i: int| 0 <= i < bytes.len() implies bytes[i] == encode_utf8(text)[i] by {
        if i < digits.len() {
            assert(text[i] == digits[i]);
        } else {
            assert(text[i] == '\n');
        }
    }
    assert(bytes =~= encode_utf8(text));
    temperature_is_in_whole_degrees(n, end);
}

/// What is no text, and a text that stands for no number once the white space at its end is gone,
/// is no temperature; and a file that could not be read gives none.
pub proof fn bad_temperature_is_refused(bytes: Seq<u8>, raw: RawRead)
    ensures
        !valid_utf8(bytes) <==> temperature(bytes) == Err::<u8, Error>(Error::TempUtf8),
        valid_utf8(bytes) && number(trim_end(decode_utf8(bytes)), 10, u32::MAX as nat) is None
            <==> temperature(bytes) matches Err(Error::TempParse(_)),
        temperature(bytes) matches Err(Error::TempParse(fault)) ==> number_fault(
            trim_end(decode_utf8(bytes)),
            10,
            u32::MAX as nat,
        ) == Some(fault),
        raw matches RawRead::Failed(cause) ==> raw_temperature(raw) == Err::<u8, Error>(
            Error::TempRead(cause),
        ),
        raw matches RawRead::Bytes(b) ==> raw_temperature(raw) == temperature(b@),
{
    number_or_fault(trim_end(decode_utf8(bytes)), 10, u32::MAX as nat);
}

/// However a number of thousandths below 256 degrees is written, with a sign or zeros before it or
/// white space after it, it is read as the whole degrees in it.
pub proof fn any_number_is_read_in_whole_degrees(bytes: Seq<u8>, n: nat)
    requires
        valid_utf8(bytes),
        number(trim_end(decode_utf8(bytes)), 10, u32::MAX as nat) == Some(n),
        n < 256_000,
    ensures
        temperature(bytes) matches Ok(t) && 1000 * t <= n < 1000 * (t + 1),
{
}

/// An index leads to the reading that it names, where there is one.
pub proof fn reading_is_where_the_index_says(readings: SensorReadings, i: usize)
    ensures
        has_reading(readings, SensorIdx::Cpu) <==> readings.cpu is Some,
        readings.cpu matches Some(t) ==> reading(readings, SensorIdx::Cpu) == t,
        has_reading(readings, SensorIdx::Hwmon(i)) <==> i < readings.hwmons@.len(),
        reading(readings, SensorIdx::Hwmon(i)) == readings.hwmons@[i as int],
        has_reading(readings, SensorIdx::Nvidia(i)) <==> i < readings.nvidia@.len(),
        reading(readings, SensorIdx::Nvidia(i)) == readings.nvidia@[i as int],
{
}

/// A GPU's temperature is kept as it is where it fits a byte; a higher one is the highest that
/// fits, so that a hotter GPU never looks cooler.
pub proof fn hotter_gpu_never_looks_cooler(a: u32, b: u32)
    ensures
        a <= 255 ==> capped(a) == a,
        a >= 255 ==> capped(a) == 255,
        a <= b ==> capped(a) <= capped(b),
{
}

/// The samples are good up to the first one that failed; the temperatures up to there are new, the
/// others stay.
pub proof fn samples_are_taken_up_to_the_first_fault(
    cache: Seq<u8>,
    samples: Seq<Result<u32, String>>,
)
    requires
        cache.len() == samples.len(),
    ensures
        ({
            let good = good_samples(samples) as int;
            let now = sampled(cache, samples);
            &&& 0 <= good <= samples.len()
            &&& forall|i: int| 0 <= i < good ==> (#[trigger] samples[i]) is Ok
            &&& good < samples.len() ==> samples[good] is Err
            &&& now.len() == cache.len()
            &&& forall|i: int| #![trigger now[i]]
                0 <= i < good ==> now[i] as int == if samples[i]->Ok_0 <= 255 {
                    samples[i]->Ok_0 as int
                } else {
                    255
                }
            &&& forall|i: int| #![trigger now[i]] good <= i < cache.len() ==> now[i] == cache[i]
        }),
{
    lemma_first_bad_sample(samples);
}

/// The samples before the first one that failed are good.
proof fn lemma_first_bad_sample(samples: Seq<Result<u32, String>>)
    ensures
        good_samples(samples) <= samples.len(),
        forall|i: int| 0 <= i < good_samples(samples) ==> (#[trigger] samples[i]) is Ok,
        good_samples(samples) < samples.len() ==> samples[good_samples(samples) as int] is Err,
    decreases samples.len(),
{
    if samples.len() > 0 && samples[0] is Ok {
        let rest = samples.drop_first();
        lemma_first_bad_sample(rest);
        assert forall|i: int| 0 <= i < good_samples(samples) implies (
        #[trigger] samples[i]) is Ok by {
            if i > 0 {
                assert(rest[i - 1] == samples[i]);
            }
        }
        if good_samples(rest) < rest.len() {
            assert(rest[good_samples(rest) as int] == samples[good_samples(samples) as int]);
        }
    }
}

/// GPUs that were never read are due; after a reading they are due two seconds later, and not
/// before.
pub proof fn gpus_are_due_every_two_seconds(nvidia: NvidiaSensors, now: u64)
    ensures
        nvidia.last_read is None ==> nvidia.is_due(now),
        nvidia.last_read matches Some(then) ==> (nvidia.is_due(now) <==> now >= then
            + 2_000_000_000),
{
}

/// Each file gives the temperature at its own place; the first file that gives none is the fault of
/// all.
pub proof fn each_file_gives_its_own_temperature(raw: Seq<RawRead>)
    ensures
        raw_temperatures(raw) matches Ok(temps) ==> {
            &&& temps.len() == raw.len()
            &&& forall|i: int|
                0 <= i < raw.len() ==> raw_temperature(#[trigger] raw[i]) == Ok::<u8, Error>(
                    temps[i],
                )
        },
        raw_temperatures(raw) matches Err(e) ==> exists|k: int|
            {
                &&& 0 <= k < raw.len()
                &&& raw_temperature(#[trigger] raw[k]) == Err::<u8, Error>(e)
                &&& forall|i: int| 0 <= i < k ==> raw_temperature(#[trigger] raw[i]) is Ok
            },
    decreases raw.len(),
{
    if raw.len() > 0 {
        let rest = raw.drop_last();
        let last = raw.len() - 1;
        each_file_gives_its_own_temperature(rest);
        match raw_temperatures(rest) {
            Ok(before) => {
                assert forall|i: int| 0 <= i < last implies raw_temperature(#[trigger] raw[i])
                    == Ok::<u8, Error>(before[i]) by {
                    assert(rest[i] == raw[i]);
                }
                assert(raw[last] == raw.last());
            },
            Err(e) => {
                let k = choose|k: int|
                    {
                        &&& 0 <= k < rest.len()
                        &&& raw_temperature(#[trigger] rest[k]) == Err::<u8, Error>(e)
                        &&& forall|i: int| 0 <= i < k ==> raw_temperature(#[trigger] rest[i]) is Ok
                    };
                assert(raw[k] == rest[k]);
                assert forall|i: int| 0 <= i < k implies raw_temperature(#[trigger] raw[i]) is Ok by {
                    assert(rest[i] == raw[i]);
                }
            },
        }
    }
}

/// The CPU's file comes before the others; there is no fault where every file gives a temperature.
pub proof fn fault_of_the_files_is_the_first(raw: RawSensors)
    ensures
        raw.cpu matches Some(cpu) ==> (raw_temperature(cpu) matches Err(e) ==> file_fault(raw)
            == Some(e)),
        (raw.cpu matches Some(cpu) ==> raw_temperature(cpu) is Ok) ==> match raw_temperatures(
            raw.hwmons@,
        ) {
            Ok(_) => file_fault(raw) is None,
            Err(e) => file_fault(raw) == Some(e),
        },
{
}

/// The GPUs are asked exactly where there are some, it is time to, and no file gave a fault.
pub proof fn gpus_are_asked_last(pool: SensorPool, now: u64, raw: RawSensors)
    ensures
        pool.wants_gpus(now, raw) <==> file_fault(raw) is None && (pool.nvidia matches Some(nvidia)
            && (nvidia.last_read matches Some(then) ==> now >= then + 2_000_000_000)),
{
}

/// Within two seconds of a reading of the GPUs, the answer is again that of the reading.
pub proof fn gpus_are_not_read_twice_in_two_seconds(
    a: NvidiaSensors,
    b: NvidiaSensors,
    c: NvidiaSensors,
    first: u64,
    then: u64,
    samples: Seq<Result<u32, String>>,
    others: Seq<Result<u32, String>>,
    r: Result<Vec<u8>, Error>,
    s: Result<Vec<u8>, Error>,
)
    requires
        polled(a, b, first, samples, r),
        polled(b, c, then, others, s),
        a.is_due(first),
        r is Ok,
        then < first + 2_000_000_000,
    ensures
        s is Ok,
        s->Ok_0@ == r->Ok_0@,
        c.cache@ == b.cache@,
        c.last_read == Some(first),
{
}

/// A reading that failed is taken again at once.
pub proof fn failed_reading_is_taken_again(
    a: NvidiaSensors,
    b: NvidiaSensors,
    first: u64,
    then: u64,
    samples: Seq<Result<u32, String>>,
    r: Result<Vec<u8>, Error>,
)
    requires
        polled(a, b, first, samples, r),
        r is Err,
        then >= first,
    ensures
        b.is_due(then),
        b.last_read == a.last_read,
{
}

/// A reading that was due gives each GPU the temperature of its own sample, or the fault of the first
/// sample that has one.
pub proof fn gpus_give_what_was_sampled(
    a: NvidiaSensors,
    b: NvidiaSensors,
    now: u64,
    samples: Seq<Result<u32, String>>,
    r: Result<Vec<u8>, Error>,
    k: int,
)
    requires
        polled(a, b, now, samples, r),
        a.is_due(now),
        a.well_formed(),
        samples.len() == a.indices.len(),
        0 <= k <= samples.len(),
        forall|i: int| 0 <= i < k ==> (#[trigger] samples[i]) is Ok,
        k < samples.len() ==> samples[k] is Err,
    ensures
        k == samples.len() ==> {
            &&& r is Ok
            &&& r->Ok_0@.len() == samples.len()
            &&& forall|i: int|
                #![trigger r->Ok_0@[i]]
                0 <= i < samples.len() ==> r->Ok_0@[i] as int == if samples[i]->Ok_0 <= 255 {
                    samples[i]->Ok_0 as int
                } else {
                    255
                }
            &&& b.last_read == Some(now)
        },
        k < samples.len() ==> (r matches Err(Error::NvmlRead(what)) && what@ == samples[k]->Err_0@),
{
    lemma_good_samples(samples, k as nat);
    samples_are_taken_up_to_the_first_fault(a.cache@, samples);
}

/// A pool that was read has the temperature of the CPU's file and of each other file at its own
/// place; a fault is that of the files, or of the GPUs where the files have none.
pub proof fn readings_are_those_of_the_sensors(
    before: SensorPool,
    after: SensorPool,
    now: u64,
    raw: RawSensors,
    r: Result<SensorReadings, Error>,
)
    requires
        pool_read(before, after, now, raw, r),
    ensures
        r matches Ok(readings) ==> {
            &&& raw.cpu matches Some(cpu) ==> readings.cpu is Some && raw_temperature(cpu) == Ok::<
                u8,
                Error,
            >(readings.cpu->0)
            &&& raw.cpu is None ==> readings.cpu is None
            &&& readings.hwmons@.len() == raw.hwmons@.len()
            &&& forall|i: int|
                0 <= i < raw.hwmons@.len() ==> raw_temperature(#[trigger] raw.hwmons@[i]) == Ok::<
                    u8,
                    Error,
                >(readings.hwmons@[i])
            &&& before.nvidia is None ==> readings.nvidia@.len() == 0
            &&& before.nvidia is Some && !before.is_nvidia_due(now) ==> readings.nvidia@
                == before.nvidia->0.cache@
            &&& before.is_nvidia_due(now) ==> readings.nvidia@ == sampled(
                before.nvidia->0.cache@,
                raw.nvidia@,
            ) && good_samples(raw.nvidia@) == raw.nvidia@.len()
        },
        r matches Err(e) ==> file_fault(raw) == Some(e) || (file_fault(raw) is None
            && before.is_nvidia_due(now) && e is NvmlRead),
        file_fault(raw) matches Some(e) ==> r == Err::<SensorReadings, Error>(e) && after == before,
{
    each_file_gives_its_own_temperature(raw.hwmons@);
    if file_fault(raw) is None {
        fault_of_the_files_is_the_first(raw);
    }
}

} // verus!
