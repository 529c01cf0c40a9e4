//! The blackboard shared by every task of a run: a keyed store of structured
//! values with typed, restricted access.

use vstd::prelude::*;

use crate::json::{duplicate_fields, JsonData, JsonVal};
use crate::text::str_eq;

verus! {

/// The key that only the model-call task may write, through the internal
/// response setters; every typed public setter refuses it.
pub open spec fn reserved_key() -> Seq<char> {
    "rllm_response"@
}

/// Why a typed accessor failed. Absence and a wrong kind are distinct,
/// caller-distinguishable outcomes, and a write to the reserved response key
/// is a third.
#[derive(Clone, Copy, PartialEq, Eq, Debug, Structural)]
pub enum StateError {
    NotFound,
    TypeMismatch,
    RestrictedKey,
}

impl StateError {
    /// A short description of the error, for callers that report it.
    pub fn message(&self) -> (r: &'static str)
        ensures
            *self is NotFound ==> r@ == "No Entry Found"@,
            *self is TypeMismatch ==> r@ == "Wrong Kind"@,
            *self is RestrictedKey ==> r@ == "Restricted key"@,
    {
        match self {
            StateError::NotFound => "No Entry Found",
            StateError::TypeMismatch => "Wrong Kind",
            StateError::RestrictedKey => "Restricted key",
        }
    }
}

/// The store as a mapping: later entries shadow earlier ones with the same key.
pub open spec fn map_of(entries: Seq<(String, JsonVal)>) -> Map<Seq<char>, JsonData>
    decreases entries,
{
    if entries.len() == 0 {
        Map::empty()
    } else {
        map_of(entries.drop_last()).insert(entries.last().0@, entries.last().1@)
    }
}

/// Appending an entry updates the mapping at its key.
proof fn lemma_map_of_push(entries: Seq<(String, JsonVal)>, p: (String, JsonVal))
    ensures
        map_of(entries.push(p)) == map_of(entries).insert(p.0@, p.1@),
{
    assert(entries.push(p).drop_last() =~= entries);
    assert(entries.push(p).last() == p);
}

/// Two entry lists whose keys and value views agree pairwise map the same.
proof fn lemma_map_of_congruent(a: Seq<(String, JsonVal)>, b: Seq<(String, JsonVal)>)
    requires
        a.len() == b.len(),
        forall|j: int| 0 <= j < a.len() ==> #[trigger] a[j].0@ == b[j].0@ && a[j].1@ == b[j].1@,
    ensures
        map_of(a) == map_of(b),
    decreases a.len(),
{
    if a.len() > 0 {
        lemma_map_of_congruent(a.drop_last(), b.drop_last());
        assert(a.last().0@ == b.last().0@ && a.last().1@ == b.last().1@);
        assert(map_of(a) =~= map_of(b));
    } else {
        assert(map_of(a) =~= map_of(b));
    }
}

/// The blackboard: one per graph run, visible to every task of that run.
/// Its view is the mapping from key to stored value.
pub struct State {
    entries: Vec<(String, JsonVal)>,
}

impl View for State {
    type V = Map<Seq<char>, JsonData>;

    closed spec fn view(&self) -> Map<Seq<char>, JsonData> {
        map_of(self.entries@)
    }
}

impl State {
    /// An empty blackboard.
    pub fn new() -> (s: State)
        ensures
            s@ == Map::<Seq<char>, JsonData>::empty(),
    {
        State { entries: Vec::new() }
    }

    /// Whether a key may be written by the typed setters.
    fn check_valid_key(var_name: &str) -> (b: bool)
        ensures
            b == (var_name@ != reserved_key()),
    {
        !str_eq(var_name, "rllm_response")
    }

    /// The stored value under a key, if any.
    fn raw_get(&self, var_name: &str) -> (r: Option<&JsonVal>)
        ensures
            match r {
                Some(v) => self@.contains_key(var_name@) && v@ == self@[var_name@],
                None => !self@.contains_key(var_name@),
            },
    {
        let ghost key = var_name@;
        let mut k: usize = self.entries.len();
        proof {
            assert(self.entries@.take(k as int) =~= self.entries@);
        }
        while k > 0
            invariant
                k <= self.entries@.len(),
                map_of(self.entries@).contains_key(key) == map_of(
                    self.entries@.take(k as int),
                ).contains_key(key),
                map_of(self.entries@).contains_key(key) ==> map_of(self.entries@)[key] == map_of(
                    self.entries@.take(k as int),
                )[key],
                key == var_name@,
            decreases k,
        {
            k = k - 1;
            proof {
                assert(self.entries@.take(k as int + 1).drop_last() =~= self.entries@.take(
                    k as int,
                ));
                assert(self.entries@.take(k as int + 1).last() == self.entries@[k as int]);
            }
            if str_eq(self.entries[k].0.as_str(), var_name) {
                return Some(&self.entries[k].1);
            }
        }
        proof {
            assert(self.entries@.take(0) =~= Seq::<(String, JsonVal)>::empty());
        }
        None
    }

    /// Stores a value under a key, shadowing any earlier value.
    fn raw_insert(&mut self, var_name: &str, value: JsonVal)
        ensures
            final(self)@ == old(self)@.insert(var_name@, value@),
    {
        let owned = var_name.to_owned();
        proof {
            lemma_map_of_push(self.entries@, (owned, value));
        }
        self.entries.push((owned, value));
    }

    /// The integer stored under a key. Fails with `NotFound` exactly when the
    /// key is absent, and with `TypeMismatch` exactly when the stored value is
    /// not an exact integer.
    pub fn get_rllm_number(&self, var_name: &str) -> (r: Result<i64, StateError>)
        ensures
            match r {
                Ok(n) => self@.contains_key(var_name@) && self@[var_name@] == JsonData::Int(
                    n as int,
                ),
                Err(StateError::NotFound) => !self@.contains_key(var_name@),
                Err(StateError::TypeMismatch) => self@.contains_key(var_name@) && !(self@[var_name@]
                    is Int),
                Err(StateError::RestrictedKey) => false,
            },
    {
        match self.raw_get(var_name) {
            Some(JsonVal::Int(n)) => Ok(*n),
            Some(_) => Err(StateError::TypeMismatch),
            None => Err(StateError::NotFound),
        }
    }

    /// The string stored under a key, with the same failure conditions.
    pub fn get_rllm_string(&self, var_name: &str) -> (r: Result<String, StateError>)
        ensures
            match r {
                Ok(s) => self@.contains_key(var_name@) && self@[var_name@] == JsonData::Str(s@),
                Err(StateError::NotFound) => !self@.contains_key(var_name@),
                Err(StateError::TypeMismatch) => self@.contains_key(var_name@) && !(self@[var_name@]
                    is Str),
                Err(StateError::RestrictedKey) => false,
            },
    {
        match self.raw_get(var_name) {
            Some(JsonVal::Str(s)) => Ok(s.clone()),
            Some(_) => Err(StateError::TypeMismatch),
            None => Err(StateError::NotFound),
        }
    }

    /// The boolean stored under a key, with the same failure conditions.
    pub fn get_rllm_bool(&self, var_name: &str) -> (r: Result<bool, StateError>)
        ensures
            match r {
                Ok(b) => self@.contains_key(var_name@) && self@[var_name@] == JsonData::Bool(b),
                Err(StateError::NotFound) => !self@.contains_key(var_name@),
                Err(StateError::TypeMismatch) => self@.contains_key(var_name@) && !(self@[var_name@]
                    is Bool),
                Err(StateError::RestrictedKey) => false,
            },
    {
        match self.raw_get(var_name) {
            Some(JsonVal::Bool(b)) => Ok(*b),
            Some(_) => Err(StateError::TypeMismatch),
            None => Err(StateError::NotFound),
        }
    }

    /// The raw structured value stored under a key, whatever its kind.
    pub fn get_rllm_json(&self, var_name: &str) -> (r: Result<JsonVal, StateError>)
        ensures
            match r {
                Ok(v) => self@.contains_key(var_name@) && v@ == self@[var_name@],
                Err(StateError::NotFound) => !self@.contains_key(var_name@),
                Err(_) => false,
            },
    {
        match self.raw_get(var_name) {
            Some(v) => Ok(v.duplicate()),
            None => Err(StateError::NotFound),
        }
    }

    /// The model response as a string, read from the reserved key.
    pub fn get_llm_response(&self) -> (r: Result<String, StateError>)
        ensures
            match r {
                Ok(s) => self@.contains_key(reserved_key()) && self@[reserved_key()]
                    == JsonData::Str(s@),
                Err(StateError::NotFound) => !self@.contains_key(reserved_key()),
                Err(StateError::TypeMismatch) => self@.contains_key(reserved_key()) && !(
                self@[reserved_key()] is Str),
                Err(StateError::RestrictedKey) => false,
            },
    {
        self.get_rllm_string("rllm_response")
    }

    /// The model response as a raw structured value.
    pub fn get_llm_response_json(&self) -> (r: Result<JsonVal, StateError>)
        ensures
            match r {
                Ok(v) => self@.contains_key(reserved_key()) && v@ == self@[reserved_key()],
                Err(StateError::NotFound) => !self@.contains_key(reserved_key()),
                Err(_) => false,
            },
    {
        self.get_rllm_json("rllm_response")
    }

    /// Stores an integer, refusing the reserved response key.
    pub fn set_rllm_number(&mut self, var_name: &str, value: i64) -> (r: Result<(), StateError>)
        ensures
            match r {
                Ok(()) => var_name@ != reserved_key() && final(self)@ == old(self)@.insert(
                    var_name@,
                    JsonData::Int(value as int),
                ),
                Err(StateError::RestrictedKey) => var_name@ == reserved_key() && final(self)@
                    == old(self)@,
                Err(_) => false,
            },
    {
        if Self::check_valid_key(var_name) {
            self.raw_insert(var_name, JsonVal::Int(value));
            Ok(())
        } else {
            Err(StateError::RestrictedKey)
        }
    }

    /// Stores a string, refusing the reserved response key.
    pub fn set_rllm_string(&mut self, var_name: &str, value: String) -> (r: Result<(), StateError>)
        ensures
            match r {
                Ok(()) => var_name@ != reserved_key() && final(self)@ == old(self)@.insert(
                    var_name@,
                    JsonData::Str(value@),
                ),
                Err(StateError::RestrictedKey) => var_name@ == reserved_key() && final(self)@
                    == old(self)@,
                Err(_) => false,
            },
    {
        if Self::check_valid_key(var_name) {
            self.raw_insert(var_name, JsonVal::Str(value));
            Ok(())
        } else {
            Err(StateError::RestrictedKey)
        }
    }

    /// Stores a boolean, refusing the reserved response key.
    pub fn set_rllm_bool(&mut self, var_name: &str, value: bool) -> (r: Result<(), StateError>)
        ensures
            match r {
                Ok(()) => var_name@ != reserved_key() && final(self)@ == old(self)@.insert(
                    var_name@,
                    JsonData::Bool(value),
                ),
                Err(StateError::RestrictedKey) => var_name@ == reserved_key() && final(self)@
                    == old(self)@,
                Err(_) => false,
            },
    {
        if Self::check_valid_key(var_name) {
            self.raw_insert(var_name, JsonVal::Bool(value));
            Ok(())
        } else {
            Err(StateError::RestrictedKey)
        }
    }

    /// Stores a raw structured value, refusing the reserved response key.
    pub fn set_rllm_json(&mut self, var_name: &str, value: JsonVal) -> (r: Result<(), StateError>)
        ensures
            match r {
                Ok(()) => var_name@ != reserved_key() && final(self)@ == old(self)@.insert(
                    var_name@,
                    value@,
                ),
                Err(StateError::RestrictedKey) => var_name@ == reserved_key() && final(self)@
                    == old(self)@,
                Err(_) => false,
            },
    {
        if Self::check_valid_key(var_name) {
            self.raw_insert(var_name, value);
            Ok(())
        } else {
            Err(StateError::RestrictedKey)
        }
    }

    /// Records the model response as a string. Internal: bypasses the
    /// restriction on the reserved key.
    pub(crate) fn set_llm_response(&mut self, value: String)
        ensures
            final(self)@ == old(self)@.insert(reserved_key(), JsonData::Str(value@)),
    {
        self.raw_insert("rllm_response", JsonVal::Str(value));
    }

    /// Records the model response as a raw structured value. Internal:
    /// bypasses the restriction on the reserved key.
    pub(crate) fn set_llm_response_json(&mut self, value: JsonVal)
        ensures
            final(self)@ == old(self)@.insert(reserved_key(), value@),
    {
        self.raw_insert("rllm_response", value);
    }

    /// A copy of the blackboard with the same mapping.
    pub fn snapshot(&self) -> (s: State)
        ensures
            s@ == self@,
    {
        let copied = duplicate_fields(&self.entries);
        proof {
            assert forall|j: int| 0 <= j < copied@.len() implies #[trigger] copied@[j].0@
                == self.entries@[j].0@ && copied@[j].1@ == self.entries@[j].1@ by {
                assert(copied@[j].0@ == self.entries@[j].0@);
            }
            lemma_map_of_congruent(copied@, self.entries@);
        }
        State { entries: copied }
    }
}

/// Makes the blackboard for one run and hands out access to it.
pub struct StateBuilder {
    state: State,
}

impl View for StateBuilder {
    type V = Map<Seq<char>, JsonData>;

    closed spec fn view(&self) -> Map<Seq<char>, JsonData> {
        self.state@
    }
}

impl StateBuilder {
    /// A builder holding a fresh, empty blackboard.
    pub fn new() -> (b: StateBuilder)
        ensures
            b@ == Map::<Seq<char>, JsonData>::empty(),
    {
        StateBuilder { state: State::new() }
    }

    /// A handle on the blackboard: a copy with the same mapping.
    pub fn state(&self) -> (s: State)
        ensures
            s@ == self@,
    {
        self.state.snapshot()
    }
}

/// Law: storing a value under a key and then reading that key back yields
/// exactly the stored value, whatever was stored before. The typed setters
/// establish `m.insert(key, d)` for every non-reserved key (and refuse the
/// reserved one), and each typed getter on a key mapped to a value of its own
/// kind returns exactly that value, so a set of any kind followed by a get of
/// the same kind round-trips.
pub proof fn lemma_set_then_get_round_trip(m: Map<Seq<char>, JsonData>, key: Seq<char>, d: JsonData)
    ensures
        m.insert(key, d).contains_key(key),
        m.insert(key, d)[key] == d,
{
}


} // verus!
