//! The checkpoint store: owns one progress value together with its identity
//! and completion flag, and ties persistence to both. Persistence must be
//! invoked on every exit path of the owning scope (the runners in this crate
//! do so; an outer layer driving the loop itself must do the same), and it
//! does nothing once the unit of work has marked itself completed.

use vstd::prelude::*;
use vstd::string::StringExecFns;
use crate::record::Record;
use crate::storage::Storage;
use crate::StoreError;

verus! {

/// The character of one decimal digit.
pub open spec fn digit_char(d: nat) -> char {
    if d == 0 {
        '0'
    } else if d == 1 {
        '1'
    } else if d == 2 {
        '2'
    } else if d == 3 {
        '3'
    } else if d == 4 {
        '4'
    } else if d == 5 {
        '5'
    } else if d == 6 {
        '6'
    } else if d == 7 {
        '7'
    } else if d == 8 {
        '8'
    } else {
        '9'
    }
}

/// The decimal digits of `n`, most significant first.
pub open spec fn dec_digits(n: nat) -> Seq<char>
    decreases n,
{
    if n < 10 {
        seq![digit_char(n)]
    } else {
        dec_digits(n / 10) + seq![digit_char(n % 10)]
    }
}

/// The storage location name that identity `id` maps to.
pub open spec fn spec_file_name(id: nat) -> Seq<char> {
    seq!['s', 't', 'a', 't', 'e', '-'] + dec_digits(id)
}

fn push_digit(s: &mut String, d: u64)
    requires
        d < 10,
    ensures
        final(s)@ == old(s)@ + seq![digit_char(d as nat)],
{
    if d == 0 {
        proof {
            reveal_strlit("0");
        }
        s.append("0");
        assert(s@ =~= old(s)@ + seq![digit_char(d as nat)]);
    } else if d == 1 {
        proof {
            reveal_strlit("1");
        }
        s.append("1");
        assert(s@ =~= old(s)@ + seq![digit_char(d as nat)]);
    } else if d == 2 {
        proof {
            reveal_strlit("2");
        }
        s.append("2");
        assert(s@ =~= old(s)@ + seq![digit_char(d as nat)]);
    } else if d == 3 {
        proof {
            reveal_strlit("3");
        }
        s.append("3");
        assert(s@ =~= old(s)@ + seq![digit_char(d as nat)]);
    } else if d == 4 {
        proof {
            reveal_strlit("4");
        }
        s.append("4");
        assert(s@ =~= old(s)@ + seq![digit_char(d as nat)]);
    } else if d == 5 {
        proof {
            reveal_strlit("5");
        }
        s.append("5");
        assert(s@ =~= old(s)@ + seq![digit_char(d as nat)]);
    } else if d == 6 {
        proof {
            reveal_strlit("6");
        }
        s.append("6");
        assert(s@ =~= old(s)@ + seq![digit_char(d as nat)]);
    } else if d == 7 {
        proof {
            reveal_strlit("7");
        }
        s.append("7");
        assert(s@ =~= old(s)@ + seq![digit_char(d as nat)]);
    } else if d == 8 {
        proof {
            reveal_strlit("8");
        }
        s.append("8");
        assert(s@ =~= old(s)@ + seq![digit_char(d as nat)]);
    } else {
        proof {
            reveal_strlit("9");
        }
        s.append("9");
        assert(s@ =~= old(s)@ + seq![digit_char(d as nat)]);
    }
}

fn push_dec(s: &mut String, n: u64)
    ensures
        final(s)@ == old(s)@ + dec_digits(n as nat),
    decreases n,
{
    if n >= 10 {
        push_dec(s, n / 10);
        push_digit(s, n % 10);
        assert(s@ =~= old(s)@ + dec_digits(n as nat));
    } else {
        push_digit(s, n);
    }
}

/// A checkpoint store: one progress value, bound to a stable identity, with
/// the completion flag that suppresses persistence once set.
pub struct State<V: Record> {
    pub completed: bool,
    pub id: usize,
    pub data: V,
}

impl<V: Record> State<V> {
    /// A store bound to `id`, not completed, holding `data`. Never touches
    /// storage.
    pub fn new(id: usize, data: V) -> (r: Self)
        ensures
            r.completed == false,
            r.id == id,
            r.data == data,
    {
        State { completed: false, id, data }
    }

    /// The storage location name of this store's identity: a fixed prefix
    /// and the identity's decimal representation.
    pub fn file_name(&self) -> (r: String)
        ensures
            r@ == spec_file_name(self.id as nat),
    {
        let mut s = String::new();
        proof {
            reveal_strlit("state-");
        }
        s.append("state-");
        assert(s@ =~= seq!['s', 't', 'a', 't', 'e', '-']);
        push_dec(&mut s, self.id as u64);
        assert(s@ =~= spec_file_name(self.id as nat));
        s
    }

    /// Whether a record exists for this store's identity, without touching
    /// it: the explicit check a caller makes before choosing between a
    /// fresh-start default and a resume path that reads specific slots.
    pub fn is_resumable(&self, storage: &Storage) -> (r: bool)
        ensures
            r == storage@.contains_key(self.id),
    {
        storage.contains(self.id)
    }

    /// Marks the unit of work completed: a one-way transition after which
    /// persistence is permanently suppressed for this store.
    pub fn mark_completed(&mut self)
        ensures
            final(self).completed == true,
            final(self).id == old(self).id,
            final(self).data == old(self).data,
    {
        self.completed = true;
    }

    /// Persists the progress value under this store's identity, fully
    /// replacing any prior record, unless the unit of work has completed,
    /// in which case storage is left untouched.
    pub fn serialize_data(&self, storage: &mut Storage)
        requires
            V::wf_model(self.data@),
        ensures
            self.completed ==> final(storage)@ == old(storage)@,
            !self.completed ==> final(storage)@ == old(storage)@.insert(
                self.id,
                V::spec_encode(self.data@),
            ),
    {
        if !self.completed {
            let bytes = self.data.encode();
            storage.write(self.id, bytes);
        }
    }

    /// If a record exists for this store's identity, decodes it into the
    /// progress value (replacing the constructor default) and deletes it;
    /// a no-op otherwise, so a second call in a row changes nothing. A
    /// record that cannot be decoded is fatal: the error is returned and
    /// both the record and the progress value are left as they were.
    pub fn deserialize_data(&mut self, storage: &mut Storage) -> (r: Result<(), StoreError>)
        requires
            V::wf_model(old(self).data@),
        ensures
            final(self).id == old(self).id,
            final(self).completed == old(self).completed,
            V::wf_model(final(self).data@),
            !old(storage)@.contains_key(old(self).id) ==> r == Ok::<(), StoreError>(())
                && final(self).data == old(self).data && final(storage)@ == old(storage)@,
            r is Ok && old(storage)@.contains_key(old(self).id) ==> final(storage)@
                == old(storage)@.remove(old(self).id),
            r is Err ==> r == Err::<(), StoreError>(StoreError::CodecFailure)
                && final(self).data == old(self).data && final(storage)@ == old(storage)@
                && old(storage)@.contains_key(old(self).id),
            forall|m: V::V|
                V::wf_model(m) && old(storage)@.contains_key(old(self).id)
                    && old(storage)@[old(self).id] == #[trigger] V::spec_encode(m) ==> r is Ok
                    && final(self).data@ == m,
    {
        let id = self.id;
        let found = storage.read(id);
        let present: bool;
        let decoded: Option<V>;
        match found {
            None => {
                present = false;
                decoded = None;
            },
            Some(bytes) => {
                present = true;
                decoded = V::decode(bytes);
            },
        }
        if !present {
            return Ok(());
        }
        match decoded {
            Some(v) => {
                self.data = v;
                storage.remove(id);
                Ok(())
            },
            None => Err(StoreError::CodecFailure),
        }
    }
}

} // verus!
