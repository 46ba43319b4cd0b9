//! Kendall's notation for classifying queueing systems.

use vstd::prelude::*;

verus! {

/// Arrival process specification.
#[derive(Debug, Clone, Copy, PartialEq, Eq, Structural)]
pub enum ArrivalProcess {
    /// Markovian (Poisson) arrivals: exponential inter-arrival times.
    M,
    /// Deterministic arrivals: constant inter-arrival times.
    D,
    /// General (arbitrary) distribution.
    G,
    /// Erlang-k distribution.
    Ek(usize),
}

/// Service process specification.
#[derive(Debug, Clone, Copy, PartialEq, Eq, Structural)]
pub enum ServiceProcess {
    /// Markovian (exponential) service times.
    M,
    /// Deterministic service times.
    D,
    /// General (arbitrary) distribution.
    G,
    /// Erlang-k distribution.
    Ek(usize),
}

/// Queue discipline.
#[derive(Debug, Clone, Copy, PartialEq, Eq, Structural)]
pub enum Discipline {
    /// First In, First Out.
    FIFO,
    /// Last In, First Out.
    LIFO,
    /// Service In Random Order.
    SIRO,
    /// Priority-based.
    Priority,
    /// Processor sharing.
    PS,
}

/// Capacity specification.
#[derive(Debug, Clone, Copy, PartialEq, Eq, Structural)]
pub enum Capacity {
    /// Infinite capacity.
    Infinite,
    /// Finite capacity (max customers in system).
    Finite(usize),
}

/// Population specification.
#[derive(Debug, Clone, Copy, PartialEq, Eq, Structural)]
pub enum Population {
    /// Infinite population.
    Infinite,
    /// Finite population size.
    Finite(usize),
}

/// Full Kendall notation descriptor: A/S/c/K/N/D
#[derive(Debug, Clone)]
pub struct KendallNotation {
    pub arrival: ArrivalProcess,
    pub service: ServiceProcess,
    pub servers: usize,
    pub capacity: Capacity,
    pub population: Population,
    pub discipline: Discipline,
}

/// The symbol of an arrival process in the notation ("M", "D", "G" or "Ek").
pub open spec fn arrival_symbol(a: ArrivalProcess) -> Seq<char> {
    match a {
        ArrivalProcess::M => seq!['M'],
        ArrivalProcess::D => seq!['D'],
        ArrivalProcess::G => seq!['G'],
        ArrivalProcess::Ek(_) => seq!['E', 'k'],
    }
}

/// The symbol of a service process in the notation ("M", "D", "G" or "Ek").
pub open spec fn service_symbol(s: ServiceProcess) -> Seq<char> {
    match s {
        ServiceProcess::M => seq!['M'],
        ServiceProcess::D => seq!['D'],
        ServiceProcess::G => seq!['G'],
        ServiceProcess::Ek(_) => seq!['E', 'k'],
    }
}

/// The name of a queue discipline, as its variant is spelled.
pub open spec fn discipline_name(d: Discipline) -> Seq<char> {
    match d {
        Discipline::FIFO => seq!['F', 'I', 'F', 'O'],
        Discipline::LIFO => seq!['L', 'I', 'F', 'O'],
        Discipline::SIRO => seq!['S', 'I', 'R', 'O'],
        Discipline::Priority => seq!['P', 'r', 'i', 'o', 'r', 'i', 't', 'y'],
        Discipline::PS => seq!['P', 'S'],
    }
}

/// "A/S/c": arrival symbol, service symbol and number of servers.
pub open spec fn short_name_of(k: KendallNotation) -> Seq<char> {
    arrival_symbol(k.arrival) + seq!['/'] + service_symbol(k.service) + seq!['/'] + decimal(
        k.servers as nat,
    )
}

/// The "/K" part: present only for a finite capacity.
pub open spec fn capacity_suffix(c: Capacity) -> Seq<char> {
    match c {
        Capacity::Infinite => Seq::empty(),
        Capacity::Finite(k) => seq!['/'] + decimal(k as nat),
    }
}

/// The "/N" part: present only for a finite population.
pub open spec fn population_suffix(p: Population) -> Seq<char> {
    match p {
        Population::Infinite => Seq::empty(),
        Population::Finite(n) => seq!['/'] + decimal(n as nat),
    }
}

/// The "/D" part: present only for a discipline other than FIFO.
pub open spec fn discipline_suffix(d: Discipline) -> Seq<char> {
    if d == Discipline::FIFO {
        Seq::empty()
    } else {
        seq!['/'] + discipline_name(d)
    }
}

/// The full notation "A/S/c[/K][/N][/D]", leaving out the parts that hold their defaults.
pub open spec fn notation_of(k: KendallNotation) -> Seq<char> {
    short_name_of(k) + capacity_suffix(k.capacity) + population_suffix(k.population)
        + discipline_suffix(k.discipline)
}

/// The defaults of the three trailing positions: infinite capacity and population, FIFO.
pub open spec fn has_default_tail(k: KendallNotation) -> bool {
    &&& k.capacity == Capacity::Infinite
    &&& k.population == Population::Infinite
    &&& k.discipline == Discipline::FIFO
}

/// The character that stands for a decimal digit `d < 10`.
pub open spec fn digit_char(d: nat) -> char {
    if d == 0 { '0' }
    else if d == 1 { '1' }
    else if d == 2 { '2' }
    else if d == 3 { '3' }
    else if d == 4 { '4' }
    else if d == 5 { '5' }
    else if d == 6 { '6' }
    else if d == 7 { '7' }
    else if d == 8 { '8' }
    else { '9' }
}

/// The usual decimal rendering of `n`: most significant digit first, no leading zeros.
pub open spec fn decimal(n: nat) -> Seq<char>
    decreases n,
{
    if n < 10 {
        seq![digit_char(n)]
    } else {
        decimal(n / 10).push(digit_char(n % 10))
    }
}

/// The value of a string of decimal digits, most significant digit first.
pub open spec fn decimal_value(s: Seq<char>) -> int
    decreases s.len(),
{
    if s.len() == 0 {
        0
    } else {
        decimal_value(s.drop_last()) * 10 + (s.last() as int - '0' as int)
    }
}

proof fn lemma_digit_char_value(d: nat)
    requires
        d < 10,
    ensures
        digit_char(d) as int - '0' as int == d,
        '0' <= digit_char(d) <= '9',
{
}

/// Reading the decimal rendering of `n` back gives `n`; the rendering is made
/// of digits only and starts with a nonzero digit unless `n` is zero.
pub proof fn lemma_decimal_round_trip(n: nat)
    ensures
        decimal_value(decimal(n)) == n,
        decimal(n).len() >= 1,
        forall|i: int| 0 <= i < decimal(n).len() ==> '0' <= #[trigger] decimal(n)[i] <= '9',
        n > 0 ==> decimal(n)[0] != '0',
    decreases n,
{
    lemma_digit_char_value((n % 10) as nat);
    if n < 10 {
        assert(decimal(n).drop_last() =~= Seq::<char>::empty());
        assert(decimal_value(Seq::<char>::empty()) == 0);
    } else {
        lemma_decimal_round_trip(n / 10);
        let prefix = decimal(n / 10);
        assert(decimal(n).drop_last() =~= prefix);
        assert(decimal_value(decimal(n)) == decimal_value(prefix) * 10 + (digit_char(
            (n % 10) as nat,
        ) as int - '0' as int));
        assert(n == (n / 10) * 10 + n % 10);
        assert forall|i: int| 0 <= i < decimal(n).len() implies '0' <= #[trigger] decimal(n)[i]
            <= '9' by {
            if i < prefix.len() {
                assert(decimal(n)[i] == prefix[i]);
            }
        }
        assert(decimal(n)[0] == prefix[0]);
    }
}

/// Distinct numbers have distinct decimal renderings.
pub proof fn lemma_decimal_injective(m: nat, n: nat)
    ensures
        decimal(m) == decimal(n) ==> m == n,
{
    lemma_decimal_round_trip(m);
    lemma_decimal_round_trip(n);
}

/// Appends the decimal digit `d` to `s`.
fn push_digit(s: &mut String, d: usize)
    requires
        d < 10,
    ensures
        final(s)@ == old(s)@.push(digit_char(d as nat)),
{
    proof {
        reveal_strlit("0");
        reveal_strlit("1");
        reveal_strlit("2");
        reveal_strlit("3");
        reveal_strlit("4");
        reveal_strlit("5");
        reveal_strlit("6");
        reveal_strlit("7");
        reveal_strlit("8");
        reveal_strlit("9");
    }
    if d == 0 {
        s.append("0");
    } else if d == 1 {
        s.append("1");
    } else if d == 2 {
        s.append("2");
    } else if d == 3 {
        s.append("3");
    } else if d == 4 {
        s.append("4");
    } else if d == 5 {
        s.append("5");
    } else if d == 6 {
        s.append("6");
    } else if d == 7 {
        s.append("7");
    } else if d == 8 {
        s.append("8");
    } else {
        s.append("9");
    }
}

/// Appends the decimal rendering of `n` to `s`.
fn push_decimal(s: &mut String, n: usize)
    ensures
        final(s)@ == old(s)@ + decimal(n as nat),
    decreases n,
{
    if n < 10 {
        push_digit(s, n);
    } else {
        push_decimal(s, n / 10);
        push_digit(s, n % 10);
    }
}

/// With infinite capacity, infinite population and FIFO discipline, the full
/// notation is exactly the short name.
pub proof fn lemma_default_tail_notation_is_short_name(k: KendallNotation)
    requires
        has_default_tail(k),
    ensures
        notation_of(k) == short_name_of(k),
{
    assert(notation_of(k) =~= short_name_of(k));
}

/// The full notation always begins with the short name.
pub proof fn lemma_notation_extends_short_name(k: KendallNotation)
    ensures
        short_name_of(k).len() <= notation_of(k).len(),
        notation_of(k).subrange(0, short_name_of(k).len() as int) == short_name_of(k),
{
    let s = short_name_of(k);
    let rest = capacity_suffix(k.capacity) + population_suffix(k.population) + discipline_suffix(
        k.discipline,
    );
    assert(notation_of(k) =~= s + rest);
    assert(notation_of(k).subrange(0, s.len() as int) =~= s);
}

/// The short name determines the arrival symbol, the service symbol and the
/// number of servers: two descriptors with the same short name agree on all three.
pub proof fn lemma_short_name_identifies(k1: KendallNotation, k2: KendallNotation)
    requires
        short_name_of(k1) == short_name_of(k2),
    ensures
        arrival_symbol(k1.arrival) == arrival_symbol(k2.arrival),
        service_symbol(k1.service) == service_symbol(k2.service),
        k1.servers == k2.servers,
{
    let a1 = arrival_symbol(k1.arrival);
    let a2 = arrival_symbol(k2.arrival);
    let s1 = service_symbol(k1.service);
    let s2 = service_symbol(k2.service);
    let d1 = decimal(k1.servers as nat);
    let d2 = decimal(k2.servers as nat);
    let n1 = short_name_of(k1);
    let n2 = short_name_of(k2);
    lemma_decimal_round_trip(k1.servers as nat);
    lemma_decimal_round_trip(k2.servers as nat);
    assert(n1 =~= a1 + seq!['/'] + s1 + seq!['/'] + d1);
    assert(n2 =~= a2 + seq!['/'] + s2 + seq!['/'] + d2);
    // The arrival symbols end where the first '/' stands.
    assert(n1[a1.len() as int] == '/');
    assert(n2[a2.len() as int] == '/');
    assert(a1.len() == a2.len());
    assert(a1 =~= n1.subrange(0, a1.len() as int));
    assert(a2 =~= n2.subrange(0, a2.len() as int));
    let off: int = a1.len() as int + 1;
    assert(n1[off + s1.len()] == '/');
    assert(n2[off + s2.len()] == '/');
    assert(s1.len() == s2.len());
    assert(s1 =~= n1.subrange(off, off + s1.len()));
    assert(s2 =~= n2.subrange(off, off + s2.len()));
    let off2: int = off + s1.len() + 1;
    assert(d1 =~= n1.subrange(off2, n1.len() as int));
    assert(d2 =~= n2.subrange(off2, n2.len() as int));
    lemma_decimal_injective(k1.servers as nat, k2.servers as nat);
}

/// The short name is laid out as "A/S/c": the arrival symbol ("M", "D", "G"
/// or "Ek"), a slash, the service symbol (same four), a slash, and then
/// decimal digits that read back as the number of servers.
pub proof fn lemma_short_name_layout(k: KendallNotation)
    ensures
        ({
            let n = short_name_of(k);
            let a_end: int = if k.arrival is Ek { 2int } else { 1int };
            let s_end: int = a_end + 1 + if k.service is Ek { 2int } else { 1int };
            &&& n.len() > s_end + 1
            &&& match k.arrival {
                ArrivalProcess::M => n[0] == 'M',
                ArrivalProcess::D => n[0] == 'D',
                ArrivalProcess::G => n[0] == 'G',
                ArrivalProcess::Ek(_) => n[0] == 'E' && n[1] == 'k',
            }
            &&& n[a_end] == '/'
            &&& match k.service {
                ServiceProcess::M => n[a_end + 1] == 'M',
                ServiceProcess::D => n[a_end + 1] == 'D',
                ServiceProcess::G => n[a_end + 1] == 'G',
                ServiceProcess::Ek(_) => n[a_end + 1] == 'E' && n[a_end + 2] == 'k',
            }
            &&& n[s_end] == '/'
            &&& forall|i: int| s_end < i < n.len() ==> '0' <= #[trigger] n[i] <= '9'
            &&& decimal_value(n.subrange(s_end + 1, n.len() as int)) == k.servers
        }),
{
    let n = short_name_of(k);
    let a = arrival_symbol(k.arrival);
    let sv = service_symbol(k.service);
    let d = decimal(k.servers as nat);
    lemma_decimal_round_trip(k.servers as nat);
    assert(n =~= a + seq!['/'] + sv + seq!['/'] + d);
    let s_end: int = a.len() as int + 1 + sv.len() as int;
    assert(n.subrange(s_end + 1, n.len() as int) =~= d);
    assert forall|i: int| s_end < i < n.len() implies '0' <= #[trigger] n[i] <= '9' by {
        assert(n[i] == d[i - s_end - 1]);
    }
}

/// Deterministic arrivals render as "D/": for every descriptor with arrival
/// `D`, the short name and the full notation start with 'D' then '/'; and the
/// four arrival processes render with four different leading symbols.
pub proof fn lemma_arrival_symbols_distinct(k: KendallNotation)
    ensures
        k.arrival == ArrivalProcess::D ==> short_name_of(k)[0] == 'D' && short_name_of(k)[1]
            == '/' && notation_of(k)[0] == 'D' && notation_of(k)[1] == '/',
        k.arrival == ArrivalProcess::M ==> short_name_of(k)[0] == 'M' && short_name_of(k)[1]
            == '/',
        k.arrival == ArrivalProcess::G ==> short_name_of(k)[0] == 'G' && short_name_of(k)[1]
            == '/',
        k.arrival is Ek ==> short_name_of(k)[0] == 'E' && short_name_of(k)[1] == 'k'
            && short_name_of(k)[2] == '/',
{
    lemma_short_name_layout(k);
    lemma_notation_extends_short_name(k);
    let n = short_name_of(k);
    assert(notation_of(k)[0] == notation_of(k).subrange(0, n.len() as int)[0]);
    assert(notation_of(k)[1] == notation_of(k).subrange(0, n.len() as int)[1]);
}

/// A finite capacity `c` is always written, whatever the server count: the
/// full notation is the short name, then "/" and the digits of `c`, then
/// exactly what follows the short name when the capacity is infinite.
pub proof fn lemma_finite_capacity_written(k: KendallNotation, c: usize)
    requires
        k.capacity == Capacity::Finite(c),
    ensures
        ({
            let open = KendallNotation { capacity: Capacity::Infinite, ..k };
            let short = short_name_of(k);
            let digits = decimal(c as nat);
            &&& short_name_of(open) == short
            &&& notation_of(k) == short + seq!['/'] + digits + notation_of(open).subrange(
                short.len() as int,
                notation_of(open).len() as int,
            )
            &&& decimal_value(digits) == c
            &&& forall|i: int| 0 <= i < digits.len() ==> '0' <= #[trigger] digits[i] <= '9'
        }),
{
    let open = KendallNotation { capacity: Capacity::Infinite, ..k };
    let short = short_name_of(k);
    lemma_decimal_round_trip(c as nat);
    let tail = population_suffix(k.population) + discipline_suffix(k.discipline);
    assert(notation_of(open) =~= short + tail);
    assert(notation_of(open).subrange(short.len() as int, notation_of(open).len() as int)
        =~= tail);
    assert(notation_of(k) =~= short + seq!['/'] + decimal(c as nat) + tail);
}

/// A finite population `p` is always written, whatever the other parts: the
/// full notation is the part before the discipline, then "/" and the digits
/// of `p`, then exactly what follows that part when the population is infinite.
pub proof fn lemma_finite_population_written(k: KendallNotation, p: usize)
    requires
        k.population == Population::Finite(p),
    ensures
        ({
            let open = KendallNotation { population: Population::Infinite, ..k };
            let base = notation_of(
                KendallNotation {
                    population: Population::Infinite,
                    discipline: Discipline::FIFO,
                    ..k
                },
            );
            &&& base.len() <= notation_of(open).len()
            &&& notation_of(open).subrange(0, base.len() as int) == base
            &&& notation_of(k) == base + seq!['/'] + decimal(p as nat) + notation_of(
                open,
            ).subrange(base.len() as int, notation_of(open).len() as int)
        }),
        decimal_value(decimal(p as nat)) == p,
{
    lemma_decimal_round_trip(p as nat);
    let open = KendallNotation { population: Population::Infinite, ..k };
    let base_k = KendallNotation {
        population: Population::Infinite,
        discipline: Discipline::FIFO,
        ..k
    };
    let base = notation_of(base_k);
    let tail = discipline_suffix(k.discipline);
    assert(base =~= short_name_of(k) + capacity_suffix(k.capacity));
    assert(notation_of(open) =~= base + tail);
    assert(notation_of(open).subrange(0, base.len() as int) =~= base);
    assert(notation_of(open).subrange(base.len() as int, notation_of(open).len() as int)
        =~= tail);
    assert(notation_of(k) =~= base + seq!['/'] + decimal(p as nat) + tail);
}

/// A discipline other than FIFO is written last, as "/" and its name
/// ("LIFO", "SIRO", "Priority" or "PS"); FIFO is never written.
pub proof fn lemma_discipline_written(k: KendallNotation)
    ensures
        ({
            let fifo = notation_of(KendallNotation { discipline: Discipline::FIFO, ..k });
            match k.discipline {
                Discipline::FIFO => notation_of(k) == fifo,
                Discipline::LIFO => notation_of(k) == fifo + seq!['/', 'L', 'I', 'F', 'O'],
                Discipline::SIRO => notation_of(k) == fifo + seq!['/', 'S', 'I', 'R', 'O'],
                Discipline::Priority => notation_of(k) == fifo + seq![
                    '/',
                    'P',
                    'r',
                    'i',
                    'o',
                    'r',
                    'i',
                    't',
                    'y',
                ],
                Discipline::PS => notation_of(k) == fifo + seq!['/', 'P', 'S'],
            }
        }),
{
    let fifo_k = KendallNotation { discipline: Discipline::FIFO, ..k };
    let fifo = notation_of(fifo_k);
    assert(fifo =~= short_name_of(k) + capacity_suffix(k.capacity) + population_suffix(
        k.population,
    ));
    assert(notation_of(k) =~= fifo + discipline_suffix(k.discipline));
    assert(seq!['/'] + seq!['L', 'I', 'F', 'O'] =~= seq!['/', 'L', 'I', 'F', 'O']);
    assert(seq!['/'] + seq!['S', 'I', 'R', 'O'] =~= seq!['/', 'S', 'I', 'R', 'O']);
    assert(seq!['/'] + seq!['P', 'r', 'i', 'o', 'r', 'i', 't', 'y'] =~= seq![
        '/',
        'P',
        'r',
        'i',
        'o',
        'r',
        'i',
        't',
        'y',
    ]);
    assert(seq!['/'] + seq!['P', 'S'] =~= seq!['/', 'P', 'S']);
}

fn fmt_process(a: ArrivalProcess) -> (s: &'static str)
    ensures
        s@ == arrival_symbol(a),
{
    proof {
        reveal_strlit("M");
        reveal_strlit("D");
        reveal_strlit("G");
        reveal_strlit("Ek");
    }
    match a {
        ArrivalProcess::M => "M",
        ArrivalProcess::D => "D",
        ArrivalProcess::G => "G",
        ArrivalProcess::Ek(_) => "Ek",
    }
}

fn fmt_process_service(s: ServiceProcess) -> (r: &'static str)
    ensures
        r@ == service_symbol(s),
{
    proof {
        reveal_strlit("M");
        reveal_strlit("D");
        reveal_strlit("G");
        reveal_strlit("Ek");
    }
    match s {
        ServiceProcess::M => "M",
        ServiceProcess::D => "D",
        ServiceProcess::G => "G",
        ServiceProcess::Ek(_) => "Ek",
    }
}

fn fmt_discipline(d: Discipline) -> (r: &'static str)
    ensures
        r@ == discipline_name(d),
{
    proof {
        reveal_strlit("FIFO");
        reveal_strlit("LIFO");
        reveal_strlit("SIRO");
        reveal_strlit("Priority");
        reveal_strlit("PS");
    }
    match d {
        Discipline::FIFO => "FIFO",
        Discipline::LIFO => "LIFO",
        Discipline::SIRO => "SIRO",
        Discipline::Priority => "Priority",
        Discipline::PS => "PS",
    }
}

impl KendallNotation {
    /// Create a standard M/M/1 queue descriptor.
    pub fn mm1() -> (q: Self)
        ensures
            q.arrival == ArrivalProcess::M,
            q.service == ServiceProcess::M,
            q.servers == 1,
            has_default_tail(q),
    {
        Self {
            arrival: ArrivalProcess::M,
            service: ServiceProcess::M,
            servers: 1,
            capacity: Capacity::Infinite,
            population: Population::Infinite,
            discipline: Discipline::FIFO,
        }
    }

    /// Create an M/M/c queue descriptor.
    pub fn mmc(c: usize) -> (q: Self)
        ensures
            q.arrival == ArrivalProcess::M,
            q.service == ServiceProcess::M,
            q.servers == c,
            has_default_tail(q),
    {
        Self {
            arrival: ArrivalProcess::M,
            service: ServiceProcess::M,
            servers: c,
            capacity: Capacity::Infinite,
            population: Population::Infinite,
            discipline: Discipline::FIFO,
        }
    }

    /// Create an M/G/1 queue descriptor.
    pub fn mg1() -> (q: Self)
        ensures
            q.arrival == ArrivalProcess::M,
            q.service == ServiceProcess::G,
            q.servers == 1,
            has_default_tail(q),
    {
        Self {
            arrival: ArrivalProcess::M,
            service: ServiceProcess::G,
            servers: 1,
            capacity: Capacity::Infinite,
            population: Population::Infinite,
            discipline: Discipline::FIFO,
        }
    }

    /// Create an M/D/1 queue descriptor.
    pub fn md1() -> (q: Self)
        ensures
            q.arrival == ArrivalProcess::M,
            q.service == ServiceProcess::D,
            q.servers == 1,
            has_default_tail(q),
    {
        Self {
            arrival: ArrivalProcess::M,
            service: ServiceProcess::D,
            servers: 1,
            capacity: Capacity::Infinite,
            population: Population::Infinite,
            discipline: Discipline::FIFO,
        }
    }

    /// Short Kendall name string (e.g., "M/M/1", "M/M/3").
    pub fn short_name(&self) -> (s: String)
        ensures
            s@ == short_name_of(*self),
    {
        proof {
            reveal_strlit("/");
        }
        let mut s = String::from_str(fmt_process(self.arrival));
        s.append("/");
        s.append(fmt_process_service(self.service));
        s.append("/");
        push_decimal(&mut s, self.servers);
        s
    }

    /// The full notation "A/S/c[/K][/N][/D]"; capacity, population and
    /// discipline appear only where they differ from infinite, infinite and FIFO.
    pub fn to_string(&self) -> (s: String)
        ensures
            s@ == notation_of(*self),
    {
        proof {
            reveal_strlit("/");
        }
        let mut s = self.short_name();
        match self.capacity {
            Capacity::Infinite => {},
            Capacity::Finite(k) => {
                s.append("/");
                push_decimal(&mut s, k);
            },
        }
        match self.population {
            Population::Infinite => {},
            Population::Finite(n) => {
                s.append("/");
                push_decimal(&mut s, n);
            },
        }
        if self.discipline != Discipline::FIFO {
            s.append("/");
            s.append(fmt_discipline(self.discipline));
        }
        s
    }
}

} // verus!
