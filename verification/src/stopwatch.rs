//! Stopwatches that time events, and sets of them keyed by name.
use vstd::prelude::*;

verus! {

/// The current value of a high-resolution performance counter, in
/// nanoseconds since an unspecified epoch.
///
/// Calls `time::precise_time_ns`. Nothing is claimed of the value: it comes
/// from the machine's clock.
#[verifier::external_body]
pub(crate) fn precise_time_ns() -> u64 {
    time::precise_time_ns()
}

/// A simple stopwatch that can time events and give stats about them.
#[derive(Clone, Copy, Debug, PartialEq, Eq, Structural)]
pub struct Stopwatch {
    /// total time clocked, in nanoseconds
    pub total_time: u64,
    /// number of time windows clocked
    pub number_of_windows: u64,
}

/// The timing statistics of a stopwatch.
#[derive(Clone, Copy, Debug, PartialEq, Eq, Structural)]
pub enum StopwatchStats {
    /// The stopwatch never clocked a window.
    NeverRan,
    /// Total time in milliseconds, number of windows, and average time per
    /// window in microseconds, all rounded down.
    Ran { total_ms: u64, samples: u64, average_us: u64 },
}

/// `a + b`, or `u64::MAX` when that is larger.
pub open spec fn saturated_sum(a: int, b: int) -> int {
    if a + b > u64::MAX {
        u64::MAX as int
    } else {
        a + b
    }
}

/// The timing statistics of a stopwatch.
pub open spec fn stats_of(s: Stopwatch) -> StopwatchStats {
    if s.number_of_windows == 0 {
        StopwatchStats::NeverRan
    } else {
        StopwatchStats::Ran {
            total_ms: s.total_time / 1000000,
            samples: s.number_of_windows,
            average_us: (s.total_time / s.number_of_windows) / 1000,
        }
    }
}

impl Stopwatch {
    /// Creates a new stopwatch.
    pub fn new() -> (s: Stopwatch)
        ensures
            s.total_time == 0,
            s.number_of_windows == 0,
    {
        Stopwatch { total_time: 0, number_of_windows: 0 }
    }

    /// Adds one window of `elapsed_ns` nanoseconds.
    pub fn record_window(&mut self, elapsed_ns: u64)
        requires
            old(self).number_of_windows < u64::MAX,
        ensures
            final(self).total_time == saturated_sum(old(self).total_time as int, elapsed_ns as int),
            final(self).number_of_windows == old(self).number_of_windows + 1,
    {
        self.total_time = self.total_time.saturating_add(elapsed_ns);
        self.number_of_windows = self.number_of_windows + 1;
    }

    /// Times a function, updating stats as necessary.
    pub fn timed<T, F: FnOnce() -> T>(&mut self, event: F) -> (ret: T)
        requires
            old(self).number_of_windows < u64::MAX,
            call_requires(event, ()),
        ensures
            call_ensures(event, (), ret),
            final(self).number_of_windows == old(self).number_of_windows + 1,
            final(self).total_time >= old(self).total_time,
    {
        let then = precise_time_ns();
        let ret = event();
        let now = precise_time_ns();
        self.record_window(now.saturating_sub(then));
        ret
    }

    /// The timing statistics of this stopwatch.
    pub fn stats(&self) -> (s: StopwatchStats)
        ensures
            s == stats_of(*self),
            s is NeverRan <==> self.number_of_windows == 0,
            s matches StopwatchStats::Ran { total_ms, samples, average_us } ==> {
                &&& samples == self.number_of_windows
                &&& total_ms * 1000000 <= self.total_time < (total_ms + 1) * 1000000
                &&& average_us * 1000 * samples <= self.total_time
                &&& self.total_time < (average_us + 1) * 1000 * samples
            },
    {
        proof {
            stats_bracket_the_clock(*self);
        }
        if self.number_of_windows == 0 {
            StopwatchStats::NeverRan
        } else {
            StopwatchStats::Ran {
                total_ms: self.total_time / 1000000,
                samples: self.number_of_windows,
                average_us: self.total_time / self.number_of_windows / 1000,
            }
        }
    }
}

/// The statistics of a stopwatch that ran bracket its clock: the total in
/// milliseconds is the total time rounded down to whole milliseconds, and the
/// average in microseconds, taken over the windows, is the total time per
/// window rounded down to whole microseconds.
pub proof fn stats_bracket_the_clock(s: Stopwatch)
    ensures
        stats_of(s) is NeverRan <==> s.number_of_windows == 0,
        stats_of(s) matches StopwatchStats::Ran { total_ms, samples, average_us } ==> {
            &&& samples == s.number_of_windows
            &&& total_ms * 1000000 <= s.total_time < (total_ms + 1) * 1000000
            &&& average_us * 1000 * samples <= s.total_time
            &&& s.total_time < (average_us + 1) * 1000 * samples
        },
{
    if s.number_of_windows > 0 {
        let t = s.total_time as int;
        let n = s.number_of_windows as int;
        let q = t / n;
        let a = q / 1000;
        vstd::arithmetic::div_mod::lemma_fundamental_div_mod(t, n);
        vstd::arithmetic::div_mod::lemma_mod_pos_bound(t, n);
        vstd::arithmetic::div_mod::lemma_fundamental_div_mod(q, 1000);
        vstd::arithmetic::div_mod::lemma_mod_pos_bound(q, 1000);
        assert(a * 1000 * n <= t && t < (a + 1) * 1000 * n) by (nonlinear_arith)
            requires
                n > 0,
                t == n * q + t % n,
                0 <= t % n < n,
                q == 1000 * a + q % 1000,
                0 <= q % 1000 < 1000,
        ;
    }
}

/// Whether `a` comes before or equals `b` in lexicographic byte order.
pub open spec fn bytes_le(a: Seq<u8>, b: Seq<u8>) -> bool
    decreases a.len(),
{
    if a.len() == 0 {
        true
    } else if b.len() == 0 {
        false
    } else if a[0] != b[0] {
        a[0] < b[0]
    } else {
        bytes_le(a.drop_first(), b.drop_first())
    }
}

/// The bytes of a name, in UTF-8.
pub open spec fn name_bytes(s: Seq<char>) -> Seq<u8> {
    vstd::utf8::encode_utf8(s)
}

/// Byte order is total.
proof fn lemma_bytes_le_total(a: Seq<u8>, b: Seq<u8>)
    ensures
        bytes_le(a, b) || bytes_le(b, a),
    decreases a.len(),
{
    if a.len() > 0 && b.len() > 0 && a[0] == b[0] {
        lemma_bytes_le_total(a.drop_first(), b.drop_first());
    }
}

/// Byte order is transitive.
proof fn lemma_bytes_le_transitive(a: Seq<u8>, b: Seq<u8>, c: Seq<u8>)
    requires
        bytes_le(a, b),
        bytes_le(b, c),
    ensures
        bytes_le(a, c),
    decreases a.len(),
{
    if a.len() > 0 && b.len() > 0 && c.len() > 0 && a[0] == b[0] && b[0] == c[0] {
        lemma_bytes_le_transitive(a.drop_first(), b.drop_first(), c.drop_first());
    }
}

/// Whether `a` comes before or equals `b` in lexicographic byte order.
fn bytes_le_exec(a: &[u8], b: &[u8]) -> (r: bool)
    ensures
        r == bytes_le(a@, b@),
{
    let mut i: usize = 0;
    proof {
        assert(a@.skip(0) =~= a@);
        assert(b@.skip(0) =~= b@);
    }
    while i < a.len() && i < b.len()
        invariant
            0 <= i <= a@.len(),
            i <= b@.len(),
            bytes_le(a@, b@) == bytes_le(a@.skip(i as int), b@.skip(i as int)),
        decreases a@.len() - i,
    {
        if a[i] != b[i] {
            return a[i] < b[i];
        }
        proof {
            assert(a@.skip(i as int).drop_first() =~= a@.skip(i + 1));
            assert(b@.skip(i as int).drop_first() =~= b@.skip(i + 1));
        }
        i = i + 1;
    }
    i == a.len()
}

/// The stopwatch of each of `names`, held at the same position of `timers`.
pub open spec fn timers_by_name(names: Seq<Seq<char>>, timers: Seq<Stopwatch>) -> Map<
    Seq<char>,
    Stopwatch,
> {
    Map::new(|n: Seq<char>| names.contains(n), |n: Seq<char>| timers[names.index_of(n)])
}

/// No name occurs twice.
pub open spec fn distinct_names(names: Seq<Seq<char>>) -> bool {
    forall|i: int, j: int| 0 <= i < j < names.len() ==> names[i] != names[j]
}

/// Among distinct names, a name is found at the one position that holds it.
proof fn lemma_index_of_distinct(names: Seq<Seq<char>>, k: int)
    requires
        distinct_names(names),
        0 <= k < names.len(),
    ensures
        names.contains(names[k]),
        names.index_of(names[k]) == k,
{
    assert(names[k] == names[k]);
    let i = names.index_of(names[k]);
    if i != k {
        if i < k {
            assert(names[i] != names[k]);
        } else {
            assert(names[k] != names[i]);
        }
    }
}

/// Inserting a new name with its stopwatch inserts it in the map.
proof fn lemma_timers_insert(
    names: Seq<Seq<char>>,
    timers: Seq<Stopwatch>,
    p: int,
    name: Seq<char>,
    sw: Stopwatch,
)
    requires
        names.len() == timers.len(),
        0 <= p <= names.len(),
        distinct_names(names.insert(p, name)),
    ensures
        timers_by_name(names.insert(p, name), timers.insert(p, sw)) == timers_by_name(
            names,
            timers,
        ).insert(name, sw),
{
    let n2 = names.insert(p, name);
    let t2 = timers.insert(p, sw);
    let m = timers_by_name(names, timers).insert(name, sw);
    assert forall|x: Seq<char>| #[trigger] n2.contains(x) <==> m.contains_key(x) by {
        if n2.contains(x) {
            let k = choose|k: int| 0 <= k < n2.len() && n2[k] == x;
            if k < p {
                assert(names[k] == x);
            } else if k > p {
                assert(names[k - 1] == x);
            }
        }
        if names.contains(x) {
            let k = choose|k: int| 0 <= k < names.len() && names[k] == x;
            if k < p {
                assert(n2[k] == x);
            } else {
                assert(n2[k + 1] == x);
            }
        }
        if x == name {
            assert(n2[p] == x);
        }
    }
    assert forall|x: Seq<char>| #[trigger] m.contains_key(x) implies t2[n2.index_of(x)] == m[x] by {
        if x == name {
            lemma_index_of_distinct(n2, p);
        } else {
            let k = names.index_of(x);
            assert(0 <= k < names.len() && names[k] == x);
            if k < p {
                assert(n2[k] == x);
                lemma_index_of_distinct(n2, k);
            } else {
                assert(n2[k + 1] == x);
                lemma_index_of_distinct(n2, k + 1);
            }
        }
    }
    assert(timers_by_name(n2, t2) =~= m);
}

/// Replacing the stopwatch at a position replaces that name's in the map.
proof fn lemma_timers_update(names: Seq<Seq<char>>, timers: Seq<Stopwatch>, j: int, sw: Stopwatch)
    requires
        names.len() == timers.len(),
        0 <= j < names.len(),
        distinct_names(names),
    ensures
        timers_by_name(names, timers.update(j, sw)) == timers_by_name(names, timers).insert(
            names[j],
            sw,
        ),
{
    let m = timers_by_name(names, timers).insert(names[j], sw);
    lemma_index_of_distinct(names, j);
    assert forall|x: Seq<char>| #[trigger] m.contains_key(x) implies timers.update(
        j,
        sw,
    )[names.index_of(x)] == m[x] by {
        if x != names[j] {
            let k = names.index_of(x);
            assert(0 <= k < names.len() && names[k] == x);
            lemma_index_of_distinct(names, k);
        }
    }
    assert(timers_by_name(names, timers.update(j, sw)) =~= m);
}

/// A set of stopwatches for multiple, named events, kept in byte order of
/// their names, with the names of the timings under way.
pub struct TimerSet {
    names: Vec<String>,
    timers: Vec<Stopwatch>,
    running: Ghost<Set<Seq<char>>>,
}

/// What a timing that runs inside the timings of `before` may do to the
/// set, leaving it as `after`: add timers and advance those that are not
/// under way, leaving the ones under way as they are.
pub open spec fn nested_ok(before: TimerSet, after: TimerSet) -> bool {
    &&& after.wf()
    &&& after.running() == before.running()
    &&& forall|n: Seq<char>| #[trigger]
        before.view().contains_key(n) ==> after.view().contains_key(n)
    &&& forall|n: Seq<char>| #[trigger]
        before.running().contains(n) ==> after.view()[n] == before.view()[n]
}

/// The timers of `before` with one for `name`, a new one when it had none.
pub open spec fn with_timer(before: Map<Seq<char>, Stopwatch>, name: Seq<char>) -> Map<
    Seq<char>,
    Stopwatch,
> {
    if before.contains_key(name) {
        before
    } else {
        before.insert(name, Stopwatch { total_time: 0, number_of_windows: 0 })
    }
}

/// The set that a timing of `name`, begun on `before`, hands to the timed
/// function: `before` with a timer for `name`, which is now under way.
pub open spec fn timing_start(before: TimerSet, name: Seq<char>, x: TimerSet) -> bool {
    &&& x.wf()
    &&& x.running() == before.running().insert(name)
    &&& x.view() == with_timer(before.view(), name)
}

impl TimerSet {
    /// The names, in order.
    pub closed spec fn names(&self) -> Seq<Seq<char>> {
        self.names@.map_values(|s: String| s@)
    }

    /// The stopwatch of each name, in the order of the names.
    pub closed spec fn timers(&self) -> Seq<Stopwatch> {
        self.timers@
    }

    /// The names of the timings under way.
    pub closed spec fn running(&self) -> Set<Seq<char>> {
        self.running@
    }

    /// The stopwatch of each name.
    pub open spec fn view(&self) -> Map<Seq<char>, Stopwatch> {
        timers_by_name(self.names(), self.timers())
    }

    /// The invariant: one stopwatch per name, names distinct and in byte
    /// order, and a stopwatch for each timing under way.
    pub open spec fn wf(&self) -> bool {
        &&& self.names().len() == self.timers().len()
        &&& distinct_names(self.names())
        &&& forall|i: int, j: int|
            0 <= i < j < self.names().len() ==> bytes_le(
                name_bytes(self.names()[i]),
                name_bytes(self.names()[j]),
            )
        &&& forall|n: Seq<char>| #[trigger] self.running().contains(n) ==> self.names().contains(n)
    }

    /// Creates a new set of timers.
    pub fn new() -> (t: TimerSet)
        ensures
            t.wf(),
            t.view() == Map::<Seq<char>, Stopwatch>::empty(),
            t.running() == Set::<Seq<char>>::empty(),
    {
        let t = TimerSet { names: Vec::new(), timers: Vec::new(), running: Ghost(Set::empty()) };
        proof {
            assert(t.names() =~= Seq::<Seq<char>>::empty());
            assert(t.view() =~= Map::<Seq<char>, Stopwatch>::empty());
        }
        t
    }

    /// The position of the stopwatch named `name`, if any.
    fn find(&self, name: &String) -> (r: Option<usize>)
        requires
            self.wf(),
        ensures
            match r {
                Some(i) => i < self.names().len() && self.names()[i as int] == name@,
                None => !self.names().contains(name@),
            },
    {
        let mut i: usize = 0;
        while i < self.names.len()
            invariant
                0 <= i <= self.names@.len(),
                self.names@.len() == self.names().len(),
                forall|j: int| 0 <= j < i ==> self.names()[j] != name@,
            decreases self.names@.len() - i,
        {
            if self.names[i] == *name {
                return Some(i);
            }
            i = i + 1;
        }
        None
    }

    /// Gives `name` a new stopwatch when it has none yet, in the byte order
    /// of the names.
    fn ensure(&mut self, name: &str)
        requires
            old(self).wf(),
        ensures
            final(self).wf(),
            final(self).running() == old(self).running(),
            final(self).view() == (if old(self).view().contains_key(name@) {
                old(self).view()
            } else {
                old(self).view().insert(name@, Stopwatch { total_time: 0, number_of_windows: 0 })
            }),
    {
        let key = name.to_owned();
        if self.find(&key).is_some() {
            return;
        }
        // insert at the first position whose name comes after `name`
        let mut p: usize = 0;
        let bytes = name.as_bytes();
        while p < self.names.len() && bytes_le_exec(self.names[p].as_str().as_bytes(), bytes)
            invariant
                0 <= p <= self.names@.len(),
                self.names@.len() == self.names().len(),
                self.wf(),
                self.names() == old(self).names(),
                bytes@ == name_bytes(name@),
                forall|j: int| 0 <= j < p ==> bytes_le(name_bytes(self.names()[j]), bytes@),
            decreases self.names@.len() - p,
        {
            p = p + 1;
        }
        let ghost old_names = self.names();
        let ghost old_timers = self.timers();
        let sw = Stopwatch::new();
        self.names.insert(p, key);
        self.timers.insert(p, sw);
        proof {
            assert(self.names() =~= old_names.insert(p as int, name@));
            if p < old_names.len() {
                assert(!bytes_le(name_bytes(old_names[p as int]), bytes@));
                lemma_bytes_le_total(bytes@, name_bytes(old_names[p as int]));
            }
            assert forall|j: int| p <= j < old_names.len() implies bytes_le(
                bytes@,
                name_bytes(old_names[j]),
            ) by {
                if j > p {
                    assert(bytes_le(name_bytes(old_names[p as int]), name_bytes(old_names[j])));
                    lemma_bytes_le_transitive(
                        bytes@,
                        name_bytes(old_names[p as int]),
                        name_bytes(old_names[j]),
                    );
                }
            }
            assert forall|i: int, j: int|
                0 <= i < j < self.names().len() implies bytes_le(
                name_bytes(self.names()[i]),
                name_bytes(self.names()[j]),
            ) by {
                if i < p && j > p {
                    lemma_bytes_le_transitive(
                        name_bytes(self.names()[i]),
                        bytes@,
                        name_bytes(self.names()[j]),
                    );
                }
            }
            assert forall|i: int, j: int|
                0 <= i < j < self.names().len() implies self.names()[i] != self.names()[j] by {
                if i == p as int {
                    assert(old_names.contains(self.names()[j]));
                } else if j == p as int {
                    assert(old_names.contains(self.names()[i]));
                }
            }
            lemma_timers_insert(old_names, old_timers, p as int, name@, sw);
            assert(self.timers() =~= old_timers.insert(p as int, sw));
            assert forall|n: Seq<char>| #[trigger] self.running().contains(n) implies self.names().contains(
                n,
            ) by {
                assert(old(self).running().contains(n));
                assert(old(self).view().contains_key(n));
                assert(self.view().contains_key(n));
            }
        }
    }

    /// Times the execution of a function, and logs it under a timer with
    /// the given name, created when there is none yet. The function gets the
    /// set, to time what it does in turn under other names, and what it
    /// returns is returned; the other timers are as the function left them.
    pub fn time<T, F: FnOnce(&mut TimerSet) -> T>(&mut self, name: &str, f: F) -> (ret: T)
        requires
            old(self).wf(),
            !old(self).running().contains(name@),
            old(self).view().contains_key(name@) ==> old(self).view()[name@].number_of_windows
                < u64::MAX,
            forall|x: &mut TimerSet|
                timing_start(*old(self), name@, *x) ==> #[trigger] call_requires(f, (x,)),
            forall|x: &mut TimerSet, r: T|
                timing_start(*old(self), name@, *x) && #[trigger] call_ensures(f, (x,), r)
                    ==> nested_ok(*x, *final(x)),
        ensures
            nested_ok(*old(self), *final(self)),
            exists|x: &mut TimerSet|
                #[trigger] call_ensures(f, (x,), ret) && timing_start(*old(self), name@, *x)
                    && final(self).view() == final(x).view().insert(
                    name@,
                    final(self).view()[name@],
                ),
            final(self).view().contains_key(name@),
            final(self).view()[name@].number_of_windows == (if old(self).view().contains_key(name@) {
                old(self).view()[name@].number_of_windows as int
            } else {
                0
            }) + 1,
            final(self).view()[name@].total_time >= (if old(self).view().contains_key(name@) {
                old(self).view()[name@].total_time as int
            } else {
                0
            }),
    {
        self.ensure(name);
        let ghost outer = self.running();
        let ghost started = self.view();
        self.running = Ghost(outer.insert(name@));
        proof {
            assert(self.view() == started);
            assert forall|n: Seq<char>| #[trigger] self.running().contains(n) implies self.names().contains(
                n,
            ) by {
                assert(started.contains_key(n));
            }
        }
        let then = precise_time_ns();
        let ghost pre = *self;
        let ret = f(self);
        let now = precise_time_ns();
        proof {
            assert(pre.running().contains(name@));
            assert(self.view()[name@] == started[name@]);
        }
        self.running = Ghost(outer);
        proof {
            assert forall|n: Seq<char>| #[trigger] self.running().contains(n) implies self.names().contains(
                n,
            ) by {
                assert(started.contains_key(n));
                assert(self.view().contains_key(n));
            }
        }
        let key = name.to_owned();
        let ghost before_record = self.view();
        let j = self.find(&key).unwrap();
        let mut sw = self.timers[j];
        proof {
            lemma_index_of_distinct(self.names(), j as int);
        }
        sw.record_window(now.saturating_sub(then));
        let ghost names = self.names();
        let ghost timers = self.timers();
        self.timers.set(j, sw);
        proof {
            lemma_timers_update(names, timers, j as int, sw);
            assert(self.timers() == timers.update(j as int, sw));
            assert(self.view() == before_record.insert(name@, sw));
            assert forall|n: Seq<char>| #[trigger]
                old(self).view().contains_key(n) implies self.view().contains_key(n) by {
                assert(started.contains_key(n));
                assert(pre.view().contains_key(n));
                assert(before_record.contains_key(n));
            }
            assert forall|n: Seq<char>| #[trigger]
                old(self).running().contains(n) implies self.view()[n] == old(
                self,
            ).view()[n] by {
                assert(old(self).names().contains(n));
                assert(pre.running().contains(n));
                assert(before_record[n] == pre.view()[n]);
                assert(n != name@);
            }
            assert(self.names() == names);
            assert forall|n: Seq<char>| #[trigger]
                self.running().contains(n) implies self.names().contains(n) by {
                assert(old(self).running().contains(n));
                assert(old(self).view().contains_key(n));
                assert(self.view().contains_key(n));
            }
            assert(nested_ok(*old(self), *self));
        }
        ret
    }

    /// The names and statistics of all the timers, in byte order of the
    /// names.
    pub fn stats(&self) -> (r: Vec<(String, StopwatchStats)>)
        requires
            self.wf(),
        ensures
            r@.len() == self.names().len(),
            forall|i: int|
                0 <= i < r@.len() ==> (#[trigger] r@[i]).0@ == self.names()[i] && r@[i].1 == stats_of(
                    self.timers()[i],
                ),
    {
        let mut r: Vec<(String, StopwatchStats)> = Vec::new();
        let mut i: usize = 0;
        while i < self.names.len()
            invariant
                0 <= i <= self.names@.len(),
                self.names@.len() == self.names().len(),
                self.names().len() == self.timers().len(),
                r@.len() == i,
                forall|k: int|
                    0 <= k < i ==> (#[trigger] r@[k]).0@ == self.names()[k] && r@[k].1 == stats_of(
                        self.timers()[k],
                    ),
            decreases self.names@.len() - i,
        {
            r.push((self.names[i].clone(), self.timers[i].stats()));
            i = i + 1;
        }
        r
    }
}

} // verus!
