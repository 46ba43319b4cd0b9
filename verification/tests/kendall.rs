use queueing_theory::kendall::{
    ArrivalProcess, Capacity, Discipline, KendallNotation, Population, ServiceProcess,
};

#[test]
fn test_mm1_notation() {
    let q = KendallNotation::mm1();
    assert_eq!(q.short_name(), "M/M/1");
    assert_eq!(q.to_string(), "M/M/1");
}

#[test]
fn test_mmc_notation() {
    let q = KendallNotation::mmc(3);
    assert_eq!(q.short_name(), "M/M/3");
}

#[test]
fn test_mg1_notation() {
    let q = KendallNotation::mg1();
    assert_eq!(q.short_name(), "M/G/1");
}

#[test]
fn test_md1_notation() {
    let q = KendallNotation::md1();
    assert_eq!(q.short_name(), "M/D/1");
}

#[test]
fn test_custom_capacity() {
    let q = KendallNotation {
        capacity: Capacity::Finite(10),
        ..KendallNotation::mm1()
    };
    assert_eq!(q.to_string(), "M/M/1/10");
}

#[test]
fn constructors_fill_every_field() {
    let q = KendallNotation::mmc(7);
    assert_eq!(q.arrival, ArrivalProcess::M);
    assert_eq!(q.service, ServiceProcess::M);
    assert_eq!(q.servers, 7);
    assert_eq!(q.capacity, Capacity::Infinite);
    assert_eq!(q.population, Population::Infinite);
    assert_eq!(q.discipline, Discipline::FIFO);
    assert_eq!(KendallNotation::mg1().service, ServiceProcess::G);
    assert_eq!(KendallNotation::md1().service, ServiceProcess::D);
}

#[test]
fn multi_digit_server_counts() {
    assert_eq!(KendallNotation::mmc(0).short_name(), "M/M/0");
    assert_eq!(KendallNotation::mmc(10).short_name(), "M/M/10");
    assert_eq!(KendallNotation::mmc(1234567).short_name(), "M/M/1234567");
    assert_eq!(
        KendallNotation::mmc(usize::MAX).short_name(),
        format!("M/M/{}", usize::MAX)
    );
}

#[test]
fn erlang_symbols_drop_the_phase_count() {
    let q = KendallNotation {
        arrival: ArrivalProcess::Ek(3),
        service: ServiceProcess::Ek(5),
        ..KendallNotation::mmc(2)
    };
    assert_eq!(q.short_name(), "Ek/Ek/2");
    assert_eq!(q.to_string(), "Ek/Ek/2");
}

#[test]
fn full_notation_with_every_part() {
    let q = KendallNotation {
        arrival: ArrivalProcess::G,
        service: ServiceProcess::D,
        servers: 4,
        capacity: Capacity::Finite(20),
        population: Population::Finite(100),
        discipline: Discipline::Priority,
    };
    assert_eq!(q.short_name(), "G/D/4");
    assert_eq!(q.to_string(), "G/D/4/20/100/Priority");
}

#[test]
fn population_and_discipline_alone() {
    let q = KendallNotation {
        population: Population::Finite(50),
        ..KendallNotation::mm1()
    };
    assert_eq!(q.to_string(), "M/M/1/50");
    let q = KendallNotation {
        discipline: Discipline::LIFO,
        ..KendallNotation::mm1()
    };
    assert_eq!(q.to_string(), "M/M/1/LIFO");
    let q = KendallNotation {
        discipline: Discipline::SIRO,
        ..KendallNotation::mm1()
    };
    assert_eq!(q.to_string(), "M/M/1/SIRO");
    let q = KendallNotation {
        discipline: Discipline::PS,
        ..KendallNotation::mm1()
    };
    assert_eq!(q.to_string(), "M/M/1/PS");
}

#[test]
fn default_tail_notation_equals_short_name() {
    for q in [
        KendallNotation::mm1(),
        KendallNotation::mmc(12),
        KendallNotation::mg1(),
        KendallNotation::md1(),
    ] {
        assert_eq!(q.to_string(), q.short_name());
    }
}

#[test]
fn notation_extends_short_name() {
    let q = KendallNotation {
        capacity: Capacity::Finite(3),
        discipline: Discipline::PS,
        ..KendallNotation::mmc(2)
    };
    assert!(q.to_string().starts_with(&q.short_name()));
    assert_eq!(q.to_string(), "M/M/2/3/PS");
}

#[test]
fn short_names_tell_server_counts_apart() {
    assert_ne!(
        KendallNotation::mmc(1).short_name(),
        KendallNotation::mmc(11).short_name()
    );
    assert_ne!(
        KendallNotation::mmc(2).short_name(),
        KendallNotation::mmc(20).short_name()
    );
}
