//! The experiment registry: subjects, the active session, its trial sequence
//! with a forward-only cursor, and standalone ratings.
//!
//! Subjects are unique by nickname and ratings unique by (subject,
//! algorithm): both are written by upsert, never by rejecting a duplicate.
use vstd::prelude::*;
use crate::codes::{ControlAlgorithm, Gender, Handedness, OptimisationParameter};
use crate::trials::{Combination, combinations, cross, shuffle, shuffled};

verus! {

/// A participant. The id is the subject's position in the registry.
#[derive(Debug)]
pub struct Subject {
    pub id: u64,
    pub nickname: String,
    pub age: i32,
    pub gender: Gender,
    pub handedness: Handedness,
}

/// What a `Subject` holds, with the nickname as its characters.
pub struct SubjectRow {
    pub id: u64,
    pub nickname: Seq<char>,
    pub age: i32,
    pub gender: Gender,
    pub handedness: Handedness,
}

impl View for Subject {
    type V = SubjectRow;

    open spec fn view(&self) -> SubjectRow {
        SubjectRow {
            id: self.id,
            nickname: self.nickname@,
            age: self.age,
            gender: self.gender,
            handedness: self.handedness,
        }
    }
}

impl Subject {
    /// A copy of this subject.
    pub fn duplicate(&self) -> (r: Subject)
        ensures
            r@ == self@,
    {
        Subject {
            id: self.id,
            nickname: self.nickname.clone(),
            age: self.age,
            gender: self.gender,
            handedness: self.handedness,
        }
    }
}

/// One experiment run of one subject.
#[derive(Debug)]
pub struct Session {
    pub id: u64,
    pub subject: Subject,
}

/// One trial: a combination of conditions within a session, and its rating
/// once the subject has given one.
#[derive(Clone, Copy, Debug, PartialEq, Eq, Structural)]
pub struct Trial {
    pub session_id: u64,
    pub control_algorithm: ControlAlgorithm,
    pub packet_rate: i32,
    pub delay: i32,
    pub rating: Option<i32>,
}

/// A standalone rating, not tied to a pre-enumerated trial.
#[derive(Clone, Copy, Debug, PartialEq, Eq, Structural)]
pub struct Rating {
    pub session_id: u64,
    pub subject_id: u64,
    pub control_algorithm: ControlAlgorithm,
    pub packet_rate: i32,
    pub delay: i32,
    pub optimisation_parameter: OptimisationParameter,
    pub rating: i32,
}

#[derive(Clone, Copy, Debug, PartialEq, Eq, Structural)]
pub enum RegistryError {
    /// No session has been created yet.
    NoSession,
    /// The session has no trials.
    NoTrial,
    /// The current trial already holds a rating.
    AlreadyRated,
}

/// Nicknames are unique and each id is its subject's position.
pub open spec fn subjects_wf(rows: Seq<SubjectRow>) -> bool {
    &&& forall|i: int, j: int|
        0 <= i < rows.len() && 0 <= j < rows.len() && rows[i].nickname == rows[j].nickname
            ==> i == j
    &&& forall|i: int| 0 <= i < rows.len() ==> rows[i].id == i
}

/// The position of the subject with nickname `nick`, or -1.
pub open spec fn subject_index(rows: Seq<SubjectRow>, nick: Seq<char>) -> int {
    if exists|i: int| 0 <= i < rows.len() && rows[i].nickname == nick {
        choose|i: int| 0 <= i < rows.len() && rows[i].nickname == nick
    } else {
        -1
    }
}

/// `rows` after an upsert keyed by nickname: an existing subject takes the
/// new age, gender and handedness; otherwise a subject is appended.
pub open spec fn upsert_subject_rows(
    rows: Seq<SubjectRow>,
    nick: Seq<char>,
    age: i32,
    gender: Gender,
    handedness: Handedness,
) -> Seq<SubjectRow> {
    let i = subject_index(rows, nick);
    if i >= 0 {
        rows.update(i, SubjectRow { id: rows[i].id, nickname: nick, age, gender, handedness })
    } else {
        rows.push(SubjectRow { id: rows.len() as u64, nickname: nick, age, gender, handedness })
    }
}

/// Ratings are unique by (subject, algorithm).
pub open spec fn ratings_wf(rows: Seq<Rating>) -> bool {
    forall|i: int, j: int|
        0 <= i < rows.len() && 0 <= j < rows.len() && rows[i].subject_id == rows[j].subject_id
            && rows[i].control_algorithm == rows[j].control_algorithm ==> i == j
}

/// The position of the rating with the key of `r`, or -1.
pub open spec fn rating_index(rows: Seq<Rating>, r: Rating) -> int {
    if exists|i: int|
        0 <= i < rows.len() && rows[i].subject_id == r.subject_id && rows[i].control_algorithm
            == r.control_algorithm {
        choose|i: int|
            0 <= i < rows.len() && rows[i].subject_id == r.subject_id
                && rows[i].control_algorithm == r.control_algorithm
    } else {
        -1
    }
}

/// `rows` after an upsert of `r` keyed by (subject, algorithm): last write wins.
pub open spec fn upsert_rating_rows(rows: Seq<Rating>, r: Rating) -> Seq<Rating> {
    let i = rating_index(rows, r);
    if i >= 0 {
        rows.update(i, r)
    } else {
        rows.push(r)
    }
}

/// The trial of session `session_id` for condition `c`, not yet rated.
pub open spec fn trial_of(c: Combination, session_id: u64) -> Trial {
    Trial {
        session_id,
        control_algorithm: c.control_algorithm,
        packet_rate: c.packet_rate,
        delay: c.delay,
        rating: None,
    }
}

/// The cursor after one advance over `n` trials, and whether it moved.
pub open spec fn advance_spec(n: nat, cursor: nat) -> (nat, bool) {
    if cursor + 1 < n {
        ((cursor + 1) as nat, true)
    } else {
        (cursor, false)
    }
}

/// Everything the registry holds.
pub struct RegistryView {
    pub subjects: Seq<SubjectRow>,
    pub session: Option<(u64, SubjectRow)>,
    pub sessions_created: nat,
    pub trials: Seq<Trial>,
    pub cursor: nat,
    pub ratings: Seq<Rating>,
}

impl RegistryView {
    pub open spec fn wf(self) -> bool {
        &&& subjects_wf(self.subjects)
        &&& ratings_wf(self.ratings)
        &&& self.trials.len() == 0 ==> self.cursor == 0
        &&& self.trials.len() > 0 ==> self.cursor < self.trials.len()
        &&& self.session is None ==> self.trials.len() == 0
        &&& self.session matches Some((id, _)) ==> id < self.sessions_created
    }
}

pub struct Registry {
    subjects: Vec<Subject>,
    session: Option<Session>,
    sessions_created: u64,
    trials: Vec<Trial>,
    cursor: usize,
    ratings: Vec<Rating>,
}

impl View for Registry {
    type V = RegistryView;

    closed spec fn view(&self) -> RegistryView {
        RegistryView {
            subjects: self.subjects@.map_values(|s: Subject| s@),
            session: match self.session {
                Some(s) => Some((s.id, s.subject@)),
                None => None,
            },
            sessions_created: self.sessions_created as nat,
            trials: self.trials@,
            cursor: self.cursor as nat,
            ratings: self.ratings@,
        }
    }
}

impl Registry {
    pub open spec fn wf(&self) -> bool {
        self@.wf()
    }

    /// An empty registry: no subjects, no session, no ratings.
    pub fn new() -> (r: Registry)
        ensures
            r.wf(),
            r@.subjects.len() == 0,
            r@.session is None,
            r@.sessions_created == 0,
            r@.trials.len() == 0,
            r@.cursor == 0,
            r@.ratings.len() == 0,
    {
        let r = Registry {
            subjects: Vec::new(),
            session: None,
            sessions_created: 0,
            trials: Vec::new(),
            cursor: 0,
            ratings: Vec::new(),
        };
        assert(r@.subjects =~= Seq::<SubjectRow>::empty());
        r
    }

    /// Creates the subject with this nickname, or updates its age, gender and
    /// handedness where it exists; returns the subject as stored.
    pub fn upsert_subject(
        &mut self,
        nickname: &str,
        age: i32,
        gender: Gender,
        handedness: Handedness,
    ) -> (r: Subject)
        requires
            old(self).wf(),
            old(self)@.subjects.len() < u64::MAX,
        ensures
            final(self).wf(),
            final(self)@.subjects == upsert_subject_rows(
                old(self)@.subjects,
                nickname@,
                age,
                gender,
                handedness,
            ),
            r@ == final(self)@.subjects[subject_index(final(self)@.subjects, nickname@)],
            0 <= subject_index(final(self)@.subjects, nickname@),
            final(self)@.session == old(self)@.session,
            final(self)@.sessions_created == old(self)@.sessions_created,
            final(self)@.trials == old(self)@.trials,
            final(self)@.cursor == old(self)@.cursor,
            final(self)@.ratings == old(self)@.ratings,
    {
        let ghost rows = old(self)@.subjects;
        let nick: String = nickname.to_owned();
        let n = self.subjects.len();
        let mut i: usize = 0;
        while i < n
            invariant
                n == self.subjects@.len(),
                i <= n,
                *self == *old(self),
                nick@ == nickname@,
                rows == self@.subjects,
                old(self).wf(),
                subjects_wf(rows),
                forall|k: int| 0 <= k < i ==> rows[k].nickname != nick@,
            decreases n - i,
        {
            if self.subjects[i].nickname == nick {
                assert(rows[i as int].nickname == nick@);
                assert(subject_index(rows, nick@) == i as int);
                self.subjects.set(
                    i,
                    Subject { id: i as u64, nickname: nick, age, gender, handedness },
                );
                let r = self.subjects[i].duplicate();
                proof {
                    let new_rows = self@.subjects;
                    assert(new_rows =~= upsert_subject_rows(rows, nickname@, age, gender, handedness));
                    assert(new_rows[i as int].nickname == nickname@);
                    assert(subject_index(new_rows, nickname@) == i as int);
                }
                return r;
            }
            i = i + 1;
        }
        assert(subject_index(rows, nick@) == -1);
        self.subjects.push(Subject { id: n as u64, nickname: nick, age, gender, handedness });
        let r = self.subjects[n].duplicate();
        proof {
            let new_rows = self@.subjects;
            assert(new_rows =~= upsert_subject_rows(rows, nickname@, age, gender, handedness));
            assert(new_rows[n as int].nickname == nickname@);
            assert(subject_index(new_rows, nickname@) == n as int);
        }
        r
    }

    /// The subjects, in order of creation.
    pub fn subjects(&self) -> (r: &Vec<Subject>)
        ensures
            r@.map_values(|s: Subject| s@) == self@.subjects,
    {
        &self.subjects
    }

    /// The active session, if one was created.
    pub fn session(&self) -> (r: &Option<Session>)
        ensures
            r is None <==> self@.session is None,
            r matches Some(s) ==> self@.session == Some((s.id, s.subject@)),
    {
        &self.session
    }

    /// The active session's trials, in the order they are run.
    pub fn trials(&self) -> (r: &Vec<Trial>)
        ensures
            r@ == self@.trials,
    {
        &self.trials
    }

    /// How many sessions this registry has opened.
    pub fn sessions_created(&self) -> (r: u64)
        ensures
            r == self@.sessions_created,
    {
        self.sessions_created
    }

    /// The position of the cursor in the trial sequence.
    pub fn cursor(&self) -> (r: usize)
        ensures
            r == self@.cursor,
    {
        self.cursor
    }

    /// The standalone ratings saved so far.
    pub fn ratings(&self) -> (r: &Vec<Rating>)
        ensures
            r@ == self@.ratings,
    {
        &self.ratings
    }

    /// Upserts the subject, opens a new session for it, and builds the
    /// session's trials: one per combination of `control_algorithms` ×
    /// `packet_rates` × `delays`, in the order that the shuffle with `draws`
    /// gives, none rated yet. The cursor is put on the first trial.
    pub fn new_session(
        &mut self,
        nickname: &str,
        age: i32,
        gender: Gender,
        handedness: Handedness,
        packet_rates: &Vec<i32>,
        delays: &Vec<i32>,
        control_algorithms: &Vec<ControlAlgorithm>,
        draws: &Vec<usize>,
    )
        requires
            old(self).wf(),
            old(self)@.subjects.len() < u64::MAX,
            old(self)@.sessions_created < u64::MAX,
        ensures
            final(self).wf(),
            final(self)@.subjects == upsert_subject_rows(
                old(self)@.subjects,
                nickname@,
                age,
                gender,
                handedness,
            ),
            final(self)@.session == Some(
                (
                    old(self)@.sessions_created as u64,
                    final(self)@.subjects[subject_index(final(self)@.subjects, nickname@)],
                ),
            ),
            final(self)@.sessions_created == old(self)@.sessions_created + 1,
            old(self)@.session matches Some((prev, _)) ==> prev != final(self)@.session->Some_0.0,
            final(self)@.trials == shuffled(
                cross(control_algorithms@, packet_rates@, delays@),
                draws@,
                cross(control_algorithms@, packet_rates@, delays@).len() as int,
            ).map_values(|c: Combination| trial_of(c, old(self)@.sessions_created as u64)),
            final(self)@.cursor == 0,
            final(self)@.ratings == old(self)@.ratings,
    {
        let subject = self.upsert_subject(nickname, age, gender, handedness);
        let id = self.sessions_created;
        self.sessions_created = id + 1;
        let mut order = combinations(control_algorithms, packet_rates, delays);
        shuffle(&mut order, draws);
        let ghost target = order@.map_values(|c: Combination| trial_of(c, id));
        let mut trials: Vec<Trial> = Vec::new();
        let mut k: usize = 0;
        while k < order.len()
            invariant
                k <= order@.len(),
                target == order@.map_values(|c: Combination| trial_of(c, id)),
                trials@ =~= target.take(k as int),
            decreases order@.len() - k,
        {
            let c = order[k];
            trials.push(
                Trial {
                    session_id: id,
                    control_algorithm: c.control_algorithm,
                    packet_rate: c.packet_rate,
                    delay: c.delay,
                    rating: None,
                },
            );
            k = k + 1;
        }
        self.trials = trials;
        self.cursor = 0;
        self.session = Some(Session { id, subject });
        assert(self@.trials =~= target);
    }

    /// The trial under the cursor; `None` when the session has no trials.
    pub fn current_trial(&self) -> (r: Option<Trial>)
        requires
            self.wf(),
        ensures
            self@.trials.len() == 0 ==> r is None,
            self@.trials.len() > 0 ==> r == Some(self@.trials[self@.cursor as int]),
    {
        if self.trials.len() == 0 {
            None
        } else {
            Some(self.trials[self.cursor])
        }
    }

    /// Moves the cursor to the next trial and returns true; at the last trial
    /// (or with no trials) returns false and leaves the cursor where it is.
    pub fn advance_trial(&mut self) -> (r: bool)
        requires
            old(self).wf(),
        ensures
            final(self).wf(),
            (final(self)@.cursor, r) == advance_spec(old(self)@.trials.len(), old(self)@.cursor),
            final(self)@.subjects == old(self)@.subjects,
            final(self)@.session == old(self)@.session,
            final(self)@.sessions_created == old(self)@.sessions_created,
            final(self)@.trials == old(self)@.trials,
            final(self)@.ratings == old(self)@.ratings,
    {
        if self.trials.len() > 0 && self.cursor < self.trials.len() - 1 {
            self.cursor = self.cursor + 1;
            true
        } else {
            false
        }
    }

    /// Records `rating` on the trial under the cursor at the time of the
    /// call. Each trial is rated once: a second rating is refused.
    pub fn rate_current_trial(&mut self, rating: i32) -> (r: Result<(), RegistryError>)
        requires
            old(self).wf(),
        ensures
            final(self).wf(),
            old(self)@.trials.len() == 0 ==> r == Err::<(), RegistryError>(RegistryError::NoTrial),
            old(self)@.trials.len() > 0 && old(self)@.trials[old(self)@.cursor as int].rating is Some
                ==> r == Err::<(), RegistryError>(RegistryError::AlreadyRated),
            r is Err ==> final(self)@.trials == old(self)@.trials,
            r is Ok <==> old(self)@.trials.len() > 0
                && old(self)@.trials[old(self)@.cursor as int].rating is None,
            r is Ok ==> final(self)@.trials == old(self)@.trials.update(
                old(self)@.cursor as int,
                Trial {
                    rating: Some(rating),
                    ..old(self)@.trials[old(self)@.cursor as int]
                },
            ),
            final(self)@.subjects == old(self)@.subjects,
            final(self)@.session == old(self)@.session,
            final(self)@.sessions_created == old(self)@.sessions_created,
            final(self)@.cursor == old(self)@.cursor,
            final(self)@.ratings == old(self)@.ratings,
    {
        if self.trials.len() == 0 {
            return Err(RegistryError::NoTrial);
        }
        let c = self.cursor;
        let t = self.trials[c];
        if t.rating.is_some() {
            return Err(RegistryError::AlreadyRated);
        }
        self.trials.set(c, Trial { rating: Some(rating), ..t });
        Ok(())
    }

    /// Saves a standalone rating for the current session's subject and the
    /// given algorithm. An earlier rating with the same subject and algorithm
    /// is replaced: last write wins.
    pub fn save_rating(
        &mut self,
        control_algorithm: ControlAlgorithm,
        packet_rate: i32,
        delay: i32,
        optimisation_parameter: OptimisationParameter,
        rating: i32,
    ) -> (r: Result<(), RegistryError>)
        requires
            old(self).wf(),
        ensures
            final(self).wf(),
            r is Err <==> old(self)@.session is None,
            r is Err ==> r == Err::<(), RegistryError>(RegistryError::NoSession)
                && final(self)@.ratings == old(self)@.ratings,
            r is Ok ==> final(self)@.ratings == upsert_rating_rows(
                old(self)@.ratings,
                Rating {
                    session_id: old(self)@.session->Some_0.0,
                    subject_id: old(self)@.session->Some_0.1.id,
                    control_algorithm,
                    packet_rate,
                    delay,
                    optimisation_parameter,
                    rating,
                },
            ),
            final(self)@.subjects == old(self)@.subjects,
            final(self)@.session == old(self)@.session,
            final(self)@.sessions_created == old(self)@.sessions_created,
            final(self)@.trials == old(self)@.trials,
            final(self)@.cursor == old(self)@.cursor,
    {
        let (session_id, subject_id) = match &self.session {
            Some(s) => (s.id, s.subject.id),
            None => {
                return Err(RegistryError::NoSession);
            },
        };
        let row = Rating {
            session_id,
            subject_id,
            control_algorithm,
            packet_rate,
            delay,
            optimisation_parameter,
            rating,
        };
        let ghost rows = self.ratings@;
        let n = self.ratings.len();
        let mut i: usize = 0;
        while i < n
            invariant
                n == self.ratings@.len(),
                i <= n,
                *self == *old(self),
                rows == self.ratings@,
                old(self).wf(),
                ratings_wf(rows),
                old(self)@.session is Some,
                row.subject_id == subject_id,
                row == (Rating {
                    session_id: old(self)@.session->Some_0.0,
                    subject_id: old(self)@.session->Some_0.1.id,
                    control_algorithm,
                    packet_rate,
                    delay,
                    optimisation_parameter,
                    rating,
                }),
                forall|k: int|
                    0 <= k < i ==> !(rows[k].subject_id == subject_id
                        && rows[k].control_algorithm == control_algorithm),
            decreases n - i,
        {
            let cur = self.ratings[i];
            if cur.subject_id == subject_id && cur.control_algorithm == control_algorithm {
                assert(rows[i as int].subject_id == row.subject_id
                    && rows[i as int].control_algorithm == row.control_algorithm);
                assert(rating_index(rows, row) == i as int);
                self.ratings.set(i, row);
                assert(self.ratings@ =~= upsert_rating_rows(rows, row));
                proof {
                    let new_rows = self.ratings@;
                    assert forall|a: int, b: int|
                        0 <= a < new_rows.len() && 0 <= b < new_rows.len()
                            && new_rows[a].subject_id == new_rows[b].subject_id
                            && new_rows[a].control_algorithm == new_rows[b].control_algorithm
                        implies a == b by {
                        if a != i as int && b != i as int {
                            assert(rows[a] == new_rows[a] && rows[b] == new_rows[b]);
                        } else if a == i as int && b != i as int {
                            assert(rows[b] == new_rows[b]);
                        } else if b == i as int && a != i as int {
                            assert(rows[a] == new_rows[a]);
                        }
                    }
                }
                return Ok(());
            }
            i = i + 1;
        }
        assert(rating_index(rows, row) == -1);
        self.ratings.push(row);
        assert(self.ratings@ =~= upsert_rating_rows(rows, row));
        Ok(())
    }
}

/// An upsert keeps nicknames unique and ids positional, and leaves exactly
/// one subject with the nickname, holding the values given.
pub proof fn lemma_upsert_subject_keeps_one(
    rows: Seq<SubjectRow>,
    nick: Seq<char>,
    age: i32,
    gender: Gender,
    handedness: Handedness,
)
    requires
        subjects_wf(rows),
        rows.len() < u64::MAX,
    ensures
        ({
            let after = upsert_subject_rows(rows, nick, age, gender, handedness);
            let i = subject_index(after, nick);
            &&& subjects_wf(after)
            &&& 0 <= i < after.len()
            &&& after[i].nickname == nick
            &&& after[i].age == age
            &&& after[i].gender == gender
            &&& after[i].handedness == handedness
            &&& forall|j: int| 0 <= j < after.len() && after[j].nickname == nick ==> j == i
            &&& after.len() == if subject_index(rows, nick) >= 0 {
                rows.len()
            } else {
                rows.len() + 1
            }
        }),
{
    let after = upsert_subject_rows(rows, nick, age, gender, handedness);
    let i0 = subject_index(rows, nick);
    if i0 >= 0 {
        assert(after[i0].nickname == nick);
    } else {
        assert(after[rows.len() as int].nickname == nick);
    }
}

/// Upserting the same nickname twice leaves exactly one subject with that
/// nickname, holding the second age, gender and handedness; the second
/// upsert adds no subject.
pub proof fn lemma_upsert_subject_twice(
    rows: Seq<SubjectRow>,
    nick: Seq<char>,
    age1: i32,
    gender1: Gender,
    handedness1: Handedness,
    age2: i32,
    gender2: Gender,
    handedness2: Handedness,
)
    requires
        subjects_wf(rows),
        rows.len() < u64::MAX - 1,
    ensures
        ({
            let once = upsert_subject_rows(rows, nick, age1, gender1, handedness1);
            let twice = upsert_subject_rows(once, nick, age2, gender2, handedness2);
            let i = subject_index(twice, nick);
            &&& subjects_wf(twice)
            &&& twice.len() == once.len()
            &&& 0 <= i < twice.len()
            &&& twice[i].age == age2
            &&& twice[i].gender == gender2
            &&& twice[i].handedness == handedness2
            &&& forall|j: int| 0 <= j < twice.len() && twice[j].nickname == nick ==> j == i
        }),
{
    let once = upsert_subject_rows(rows, nick, age1, gender1, handedness1);
    lemma_upsert_subject_keeps_one(rows, nick, age1, gender1, handedness1);
    lemma_upsert_subject_keeps_one(once, nick, age2, gender2, handedness2);
}

/// An upsert keeps rating keys unique and leaves exactly one rating with the
/// key of `r`: `r` itself.
pub proof fn lemma_upsert_rating_keeps_one(rows: Seq<Rating>, r: Rating)
    requires
        ratings_wf(rows),
    ensures
        ({
            let after = upsert_rating_rows(rows, r);
            let i = rating_index(after, r);
            &&& ratings_wf(after)
            &&& 0 <= i < after.len()
            &&& after[i] == r
            &&& forall|j: int|
                0 <= j < after.len() && after[j].subject_id == r.subject_id
                    && after[j].control_algorithm == r.control_algorithm ==> j == i
            &&& after.len() == if rating_index(rows, r) >= 0 {
                rows.len()
            } else {
                rows.len() + 1
            }
        }),
{
    let after = upsert_rating_rows(rows, r);
    let i0 = rating_index(rows, r);
    if i0 >= 0 {
        assert(after[i0] == r);
        assert forall|a: int, b: int|
            0 <= a < after.len() && 0 <= b < after.len() && after[a].subject_id
                == after[b].subject_id && after[a].control_algorithm == after[b].control_algorithm
            implies a == b by {
            if a != i0 && b != i0 {
                assert(rows[a] == after[a] && rows[b] == after[b]);
            } else if a == i0 && b != i0 {
                assert(rows[b] == after[b]);
            } else if b == i0 && a != i0 {
                assert(rows[a] == after[a]);
            }
        }
    } else {
        assert(after[rows.len() as int] == r);
    }
}

/// Saving a rating twice for the same subject and algorithm leaves one
/// rating for that key, holding the second value; the second save adds no
/// rating.
pub proof fn lemma_upsert_rating_twice(rows: Seq<Rating>, first: Rating, second: Rating)
    requires
        ratings_wf(rows),
        first.subject_id == second.subject_id,
        first.control_algorithm == second.control_algorithm,
    ensures
        ({
            let once = upsert_rating_rows(rows, first);
            let twice = upsert_rating_rows(once, second);
            let i = rating_index(twice, second);
            &&& ratings_wf(twice)
            &&& twice.len() == once.len()
            &&& 0 <= i < twice.len()
            &&& twice[i] == second
            &&& forall|j: int|
                0 <= j < twice.len() && twice[j].subject_id == second.subject_id
                    && twice[j].control_algorithm == second.control_algorithm ==> j == i
        }),
{
    let once = upsert_rating_rows(rows, first);
    lemma_upsert_rating_keeps_one(rows, first);
    lemma_upsert_rating_keeps_one(once, second);
    let i1 = rating_index(once, first);
    assert(once[i1].subject_id == second.subject_id && once[i1].control_algorithm
        == second.control_algorithm);
}

/// The cursor over `n` trials after `k` advances from the first trial.
pub open spec fn cursor_after(n: nat, k: nat) -> nat
    decreases k,
{
    if k == 0 {
        0
    } else {
        advance_spec(n, cursor_after(n, (k - 1) as nat)).0
    }
}

/// How many of the first `k` advances over `n` trials returned true.
pub open spec fn moves_in(n: nat, k: nat) -> nat
    decreases k,
{
    if k == 0 {
        0
    } else {
        moves_in(n, (k - 1) as nat) + if advance_spec(n, cursor_after(n, (k - 1) as nat)).1 {
            1nat
        } else {
            0nat
        }
    }
}

/// Over `n` trials, starting at the first: after `k` advances the cursor is
/// at `min(k, n - 1)`; advance number `k + 1` returns true exactly when
/// `k + 1 < n`; so the advances return true `n - 1` times, then false on
/// every later call.
pub proof fn lemma_cursor_walk(n: nat, k: nat)
    requires
        n >= 1,
    ensures
        cursor_after(n, k) == if k < n - 1 { k } else { (n - 1) as nat },
        advance_spec(n, cursor_after(n, k)).1 == (k + 1 < n),
        moves_in(n, k) == if k < n - 1 { k } else { (n - 1) as nat },
    decreases k,
{
    if k > 0 {
        lemma_cursor_walk(n, (k - 1) as nat);
    }
}

/// A rating given before an advance stays on the trial that was current when
/// it was given; the trial the cursor moves to is left as it was.
pub proof fn lemma_rating_stays_with_trial(v: RegistryView, rating: i32)
    requires
        v.wf(),
        v.trials.len() > 0,
    ensures
        ({
            let rated = v.trials.update(
                v.cursor as int,
                Trial { rating: Some(rating), ..v.trials[v.cursor as int] },
            );
            let (next, moved) = advance_spec(rated.len(), v.cursor);
            &&& rated[v.cursor as int].rating == Some(rating)
            &&& moved ==> next == v.cursor + 1 && rated[next as int] == v.trials[next as int]
            &&& !moved ==> next == v.cursor
        }),
{
}

} // verus!
