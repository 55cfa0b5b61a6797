use haptic_db::codes::{ControlAlgorithm, Device, Gender, Handedness, OptimisationParameter};
use haptic_db::pipeline::Pipeline;
use haptic_db::time_source::TimeSource;
use haptic_db::registry::{Registry, RegistryError};
use haptic_db::trials::{combinations, shuffle, Combination};

fn combo(a: ControlAlgorithm, rate: i32, delay: i32) -> Combination {
    Combination { control_algorithm: a, packet_rate: rate, delay }
}

fn count_of(reg: &Registry, c: Combination) -> usize {
    reg.trials()
        .iter()
        .filter(|t| {
            t.control_algorithm == c.control_algorithm
                && t.packet_rate == c.packet_rate
                && t.delay == c.delay
        })
        .count()
}

#[test]
fn upsert_same_nickname_twice_keeps_one_subject() {
    let mut reg = Registry::new();
    let first = reg.upsert_subject("ben", 25, Gender::Male, Handedness::Right);
    let second = reg.upsert_subject("ben", 12, Gender::Female, Handedness::Left);
    assert_eq!(reg.subjects().len(), 1);
    assert_eq!(first.id, second.id);
    let s = &reg.subjects()[0];
    assert_eq!(s.nickname, "ben");
    assert_eq!(s.age, 12);
    assert_eq!(s.gender, Gender::Female);
    assert_eq!(s.handedness, Handedness::Left);
}

#[test]
fn distinct_nicknames_get_distinct_subjects() {
    let mut reg = Registry::new();
    let a = reg.upsert_subject("ben", 25, Gender::Male, Handedness::Right);
    let b = reg.upsert_subject("ann", 31, Gender::Female, Handedness::Left);
    assert_eq!(reg.subjects().len(), 2);
    assert_eq!(a.id, 0);
    assert_eq!(b.id, 1);
}

#[test]
fn combinations_enumerate_algorithms_then_rates_then_delays() {
    let r = combinations(
        &vec![ControlAlgorithm::MMT, ControlAlgorithm::ISS],
        &vec![10, 50],
        &vec![1, 2],
    );
    assert_eq!(
        r,
        vec![
            combo(ControlAlgorithm::MMT, 10, 1),
            combo(ControlAlgorithm::MMT, 10, 2),
            combo(ControlAlgorithm::MMT, 50, 1),
            combo(ControlAlgorithm::MMT, 50, 2),
            combo(ControlAlgorithm::ISS, 10, 1),
            combo(ControlAlgorithm::ISS, 10, 2),
            combo(ControlAlgorithm::ISS, 50, 1),
            combo(ControlAlgorithm::ISS, 50, 2),
        ]
    );
}

#[test]
fn combinations_of_an_empty_list_are_empty() {
    let r = combinations(&vec![ControlAlgorithm::PC], &vec![], &vec![10, 20]);
    assert!(r.is_empty());
}

#[test]
fn shuffle_follows_its_draws() {
    let a = combo(ControlAlgorithm::WAVE, 1, 1);
    let b = combo(ControlAlgorithm::WAVE, 2, 1);
    let c = combo(ControlAlgorithm::WAVE, 3, 1);
    let mut v = vec![a, b, c];
    shuffle(&mut v, &vec![0, 0, 0]);
    assert_eq!(v, vec![b, c, a]);
    let mut w = vec![a, b, c];
    shuffle(&mut w, &vec![]);
    assert_eq!(w, vec![a, b, c]);
}

#[test]
fn new_session_creates_each_combination_once() {
    let mut reg = Registry::new();
    let algos = vec![ControlAlgorithm::MMT, ControlAlgorithm::ISS];
    reg.new_session(
        "ben",
        25,
        Gender::Male,
        Handedness::Right,
        &vec![10, 50, 100],
        &vec![10, 20],
        &algos,
        &vec![7, 3, 9, 1, 4, 4, 8, 2, 6, 0, 5, 11],
    );
    assert_eq!(reg.trials().len(), 12);
    for a in [ControlAlgorithm::MMT, ControlAlgorithm::ISS] {
        for rate in [10, 50, 100] {
            for delay in [10, 20] {
                assert_eq!(count_of(&reg, combo(a, rate, delay)), 1);
            }
        }
    }
    let session = reg.session().as_ref().unwrap();
    assert_eq!(session.id, 0);
    assert_eq!(reg.sessions_created(), 1);
    assert_eq!(session.subject.nickname, "ben");
    assert!(reg.trials().iter().all(|t| t.session_id == 0 && t.rating.is_none()));
    assert_eq!(reg.cursor(), 0);
}

#[test]
fn advance_trial_moves_n_minus_one_times() {
    let mut reg = Registry::new();
    reg.new_session(
        "ben",
        25,
        Gender::Male,
        Handedness::Right,
        &vec![10, 50],
        &vec![10, 20],
        &vec![ControlAlgorithm::WAVE],
        &vec![],
    );
    assert_eq!(reg.trials().len(), 4);
    assert_eq!(reg.current_trial(), Some(reg.trials()[0]));
    assert!(reg.advance_trial());
    assert!(reg.advance_trial());
    assert!(reg.advance_trial());
    assert!(!reg.advance_trial());
    assert!(!reg.advance_trial());
    assert_eq!(reg.cursor(), 3);
    assert_eq!(reg.current_trial(), Some(reg.trials()[3]));
}

#[test]
fn cursor_without_trials() {
    let mut reg = Registry::new();
    assert_eq!(reg.current_trial(), None);
    assert!(!reg.advance_trial());
    assert_eq!(reg.rate_current_trial(3), Err(RegistryError::NoTrial));
}

#[test]
fn rating_before_advance_lands_on_the_earlier_trial() {
    let mut reg = Registry::new();
    reg.new_session(
        "ben",
        25,
        Gender::Male,
        Handedness::Right,
        &vec![10, 50],
        &vec![10],
        &vec![ControlAlgorithm::PC],
        &vec![],
    );
    assert_eq!(reg.rate_current_trial(4), Ok(()));
    assert!(reg.advance_trial());
    assert_eq!(reg.trials()[0].rating, Some(4));
    assert_eq!(reg.trials()[1].rating, None);
    assert_eq!(reg.current_trial().unwrap().rating, None);
}

#[test]
fn a_trial_is_rated_once() {
    let mut reg = Registry::new();
    reg.new_session(
        "ben",
        25,
        Gender::Male,
        Handedness::Right,
        &vec![10],
        &vec![10],
        &vec![ControlAlgorithm::PC],
        &vec![],
    );
    assert_eq!(reg.rate_current_trial(4), Ok(()));
    assert_eq!(reg.rate_current_trial(2), Err(RegistryError::AlreadyRated));
    assert_eq!(reg.trials()[0].rating, Some(4));
}

#[test]
fn save_rating_twice_keeps_the_last_value() {
    let mut reg = Registry::new();
    reg.new_session(
        "ben",
        25,
        Gender::Male,
        Handedness::Right,
        &vec![],
        &vec![],
        &vec![],
        &vec![],
    );
    assert_eq!(
        reg.save_rating(ControlAlgorithm::ISS, 10, 10, OptimisationParameter::Delay, 5),
        Ok(())
    );
    assert_eq!(
        reg.save_rating(ControlAlgorithm::ISS, 20, 30, OptimisationParameter::PacketRate, 7),
        Ok(())
    );
    assert_eq!(
        reg.save_rating(ControlAlgorithm::NoControl, 10, 10, OptimisationParameter::PacketRate, 5),
        Ok(())
    );
    assert_eq!(reg.ratings().len(), 2);
    let iss = &reg.ratings()[0];
    assert_eq!(iss.control_algorithm, ControlAlgorithm::ISS);
    assert_eq!(iss.rating, 7);
    assert_eq!(iss.packet_rate, 20);
    assert_eq!(iss.delay, 30);
    assert_eq!(iss.optimisation_parameter, OptimisationParameter::PacketRate);
}

#[test]
fn save_rating_without_session_is_refused() {
    let mut reg = Registry::new();
    assert_eq!(
        reg.save_rating(ControlAlgorithm::ISS, 10, 10, OptimisationParameter::Delay, 5),
        Err(RegistryError::NoSession)
    );
    assert!(reg.ratings().is_empty());
}

#[test]
fn end_to_end_ben() {
    let mut reg = Registry::new();
    reg.new_session(
        "ben",
        25,
        Gender::Male,
        Handedness::Right,
        &vec![10, 50, 100],
        &vec![10, 20],
        &vec![ControlAlgorithm::MMT, ControlAlgorithm::ISS],
        &vec![5, 2, 8, 0, 1, 3, 3, 7, 9, 4, 6, 10],
    );
    assert_eq!(reg.trials().len(), 12);
    for a in [ControlAlgorithm::MMT, ControlAlgorithm::ISS] {
        for rate in [10, 50, 100] {
            for delay in [10, 20] {
                assert_eq!(count_of(&reg, combo(a, rate, delay)), 1);
            }
        }
    }
    let (states, rx) = Pipeline::new(TimeSource::new());
    for _ in 0..4 {
        let sample = ([0.1f64, 0.2, 0.3], [0.4f64, 0.5, 0.6], [0.7f64, 0.8, 0.9], Device::Master);
        assert!(states.submit(true, sample).is_ok());
    }
    let queued: Vec<_> = rx.try_iter().collect();
    assert_eq!(queued.len(), 4);
    assert!(queued.iter().all(|(r, _, s)| *r && s.3 == Device::Master));
    assert_eq!(
        reg.save_rating(ControlAlgorithm::ISS, 10, 10, OptimisationParameter::Delay, 120),
        Ok(())
    );
    assert_eq!(
        reg.save_rating(ControlAlgorithm::ISS, 10, 10, OptimisationParameter::Delay, 110),
        Ok(())
    );
    let iss: Vec<_> = reg
        .ratings()
        .iter()
        .filter(|r| r.control_algorithm == ControlAlgorithm::ISS)
        .collect();
    assert_eq!(iss.len(), 1);
    assert_eq!(iss[0].rating, 110);
}

#[test]
fn basic() {
    let mut reg = Registry::new();
    reg.new_session(
        "ben",
        25,
        Gender::Male,
        Handedness::Right,
        &vec![],
        &vec![],
        &vec![],
        &vec![],
    );
    let again = reg.upsert_subject("ben", 12, Gender::Male, Handedness::Right);
    assert_eq!(again.age, 12);
    assert_eq!(reg.subjects().len(), 1);
    assert_eq!(
        reg.save_rating(ControlAlgorithm::ISS, 10, 10, OptimisationParameter::Delay, 5),
        Ok(())
    );
    assert_eq!(
        reg.save_rating(ControlAlgorithm::NoControl, 10, 10, OptimisationParameter::PacketRate, 5),
        Ok(())
    );
    assert_eq!(reg.ratings().len(), 2);
}

#[test]
fn a_second_session_gets_a_new_id() {
    let mut reg = Registry::new();
    let none: Vec<i32> = vec![];
    reg.new_session("ben", 25, Gender::Male, Handedness::Right, &vec![10], &vec![10], &vec![ControlAlgorithm::PC], &vec![]);
    reg.new_session("ann", 30, Gender::Female, Handedness::Left, &none, &none, &vec![], &vec![]);
    assert_eq!(reg.session().as_ref().unwrap().id, 1);
    assert_eq!(reg.session().as_ref().unwrap().subject.nickname, "ann");
    assert!(reg.trials().is_empty());
    assert_eq!(reg.current_trial(), None);
}
