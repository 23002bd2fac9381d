use vstd::prelude::*;

verus! {

/// A keyboard key, as far as the controls tell keys apart. Every other key is
/// `Other`, carrying a code that tells it from the rest.
#[derive(Clone, Copy, Debug, PartialEq, Eq, Structural)]
pub enum Key {
    A,
    D,
    S,
    W,
    Space,
    LShift,
    Left,
    Right,
    Up,
    Down,
    Escape,
    Other(u32),
}

/// The keys held down now, in the order they were pressed.
pub struct PressedKeys {
    keys: Vec<Key>,
}

impl View for PressedKeys {
    type V = Seq<Key>;

    closed spec fn view(&self) -> Seq<Key> {
        self.keys@
    }
}

/// `i` is the first position of `k` in `s`.
pub open spec fn is_first_position(s: Seq<Key>, k: Key, i: int) -> bool {
    0 <= i < s.len() && s[i] == k && forall|j: int| 0 <= j < i ==> s[j] != k
}

/// The first position of `k` in `s`, where `s` holds `k`.
pub open spec fn position_of(s: Seq<Key>, k: Key) -> int {
    choose|i: int| is_first_position(s, k, i)
}

/// A list that holds `k` has a first position of it, and `position_of` gives it.
pub proof fn lemma_position_of_first(s: Seq<Key>, k: Key)
    requires
        s.contains(k),
    ensures
        is_first_position(s, k, position_of(s, k)),
    decreases s.len(),
{
    let w = if s.drop_last().contains(k) {
        lemma_position_of_first(s.drop_last(), k);
        let i = position_of(s.drop_last(), k);
        assert(s[i] == s.drop_last()[i]);
        assert forall|j: int| 0 <= j < i implies s[j] != k by {
            assert(s[j] == s.drop_last()[j]);
        }
        i
    } else {
        let i = choose|i: int| 0 <= i < s.len() && s[i] == k;
        assert forall|j: int| 0 <= j < s.len() - 1 implies s[j] != k by {
            assert(s[j] == s.drop_last()[j]);
        }
        assert(i == s.len() - 1);
        i
    };
    assert(is_first_position(s, k, w));
}

/// The list after `k` goes down: unchanged if it was down already, else `k` at the end.
pub open spec fn spec_press(s: Seq<Key>, k: Key) -> Seq<Key> {
    if s.contains(k) {
        s
    } else {
        s.push(k)
    }
}

/// The list after `k` goes up: `k` taken out where it was, the others in their order.
pub open spec fn spec_release(s: Seq<Key>, k: Key) -> Seq<Key> {
    if s.contains(k) {
        s.remove(position_of(s, k))
    } else {
        s
    }
}

impl PressedKeys {
    #[verifier::type_invariant]
    spec fn no_key_twice(&self) -> bool {
        self.keys@.no_duplicates()
    }

    /// No key is held down.
    pub fn new() -> (r: PressedKeys)
        ensures
            r@ == Seq::<Key>::empty(),
            r@.no_duplicates(),
    {
        PressedKeys { keys: Vec::new() }
    }

    /// Whether `key` is held down.
    pub fn contains(&self, key: Key) -> (r: bool)
        ensures
            r == self@.contains(key),
    {
        self.position(key).is_some()
    }

    fn position(&self, key: Key) -> (r: Option<usize>)
        ensures
            match r {
                Some(i) => i < self@.len() && self@[i as int] == key,
                None => !self@.contains(key),
            },
    {
        let n: usize = self.keys.len();
        let mut i: usize = 0;
        while i < n
            invariant
                n == self@.len(),
                i <= n,
                forall|j: int| 0 <= j < i ==> self@[j] != key,
            decreases n - i,
        {
            if self.keys[i] == key {
                return Some(i);
            }
            i = i + 1;
        }
        None
    }

    /// The keys held down, in the order they were pressed.
    pub fn keys(&self) -> (r: &[Key])
        ensures
            r@ == self@,
            r@.no_duplicates(),
    {
        proof {
            use_type_invariant(self);
        }
        self.keys.as_slice()
    }

    /// Records that `key` went down; a key already down stays where it is.
    pub fn press(&mut self, key: Key)
        ensures
            final(self)@ == spec_press(old(self)@, key),
            final(self)@.contains(key),
            final(self)@.no_duplicates(),
    {
        proof {
            use_type_invariant(&*self);
        }
        if self.position(key).is_none() {
            let mut keys: Vec<Key> = Vec::new();
            std::mem::swap(&mut keys, &mut self.keys);
            keys.push(key);
            assert(keys@.no_duplicates());
            assert(keys@[keys@.len() - 1] == key);
            self.keys = keys;
        }
    }

    /// Records that `key` went up; the other keys keep their order.
    pub fn release(&mut self, key: Key)
        ensures
            final(self)@ == spec_release(old(self)@, key),
            !final(self)@.contains(key),
            final(self)@.no_duplicates(),
    {
        proof {
            use_type_invariant(&*self);
        }
        match self.position(key) {
            Some(i) => {
                let ghost s = self@;
                proof {
                    lemma_position_unique(s, key, i as int);
                }
                let mut keys: Vec<Key> = Vec::new();
                std::mem::swap(&mut keys, &mut self.keys);
                keys.remove(i);
                assert(keys@ =~= s.remove(i as int));
                proof {
                    lemma_remove_keeps_others(s, i as int);
                }
                self.keys = keys;
            },
            None => {},
        }
    }
}

/// The keys other than `k`.
pub open spec fn other_than(k: Key) -> spec_fn(Key) -> bool {
    |x: Key| x != k
}

proof fn lemma_filter_keeps_all(s: Seq<Key>, k: Key)
    requires
        !s.contains(k),
    ensures
        s.filter(other_than(k)) == s,
    decreases s.len(),
{
    reveal_with_fuel(Seq::<_>::filter, 1);
    if s.len() > 0 {
        assert(!s.drop_last().contains(k)) by {
            if s.drop_last().contains(k) {
                let j = choose|j: int| 0 <= j < s.drop_last().len() && s.drop_last()[j] == k;
                assert(s[j] == k);
            }
        }
        lemma_filter_keeps_all(s.drop_last(), k);
        assert(s[s.len() - 1] != k);
        assert(s.drop_last().push(s.last()) =~= s);
    }
}

proof fn lemma_remove_is_filter(s: Seq<Key>, k: Key, i: int)
    requires
        s.no_duplicates(),
        0 <= i < s.len(),
        s[i] == k,
    ensures
        s.remove(i) == s.filter(other_than(k)),
    decreases s.len(),
{
    reveal_with_fuel(Seq::<_>::filter, 1);
    let d = s.drop_last();
    if i == s.len() - 1 {
        assert(!d.contains(k)) by {
            if d.contains(k) {
                let j = choose|j: int| 0 <= j < d.len() && d[j] == k;
                assert(s[j] == k);
            }
        }
        lemma_filter_keeps_all(d, k);
        assert(s.remove(i) =~= d);
    } else {
        assert(d[i] == k);
        assert(d.no_duplicates());
        lemma_remove_is_filter(d, k, i);
        assert(s.last() != k);
        assert(s.remove(i) =~= d.remove(i).push(s.last()));
    }
}

/// Releasing a key leaves exactly the other held keys, in the order they
/// were pressed: the keys other than `k`, as they stood.
pub proof fn lemma_release_keeps_order(s: Seq<Key>, k: Key)
    requires
        s.no_duplicates(),
    ensures
        spec_release(s, k) == s.filter(other_than(k)),
{
    if s.contains(k) {
        let i = choose|i: int| 0 <= i < s.len() && s[i] == k;
        lemma_position_unique(s, k, i);
        lemma_remove_is_filter(s, k, i);
    } else {
        lemma_filter_keeps_all(s, k);
    }
}

/// Pressing a key that is up puts it last, after the keys held before in
/// their order; pressing a key that is down changes nothing.
pub proof fn lemma_press_puts_last(s: Seq<Key>, k: Key)
    ensures
        s.contains(k) ==> spec_press(s, k) == s,
        !s.contains(k) ==> spec_press(s, k).len() == s.len() + 1 && spec_press(s, k)[s.len() as int]
            == k && spec_press(s, k).take(s.len() as int) == s,
{
    if !s.contains(k) {
        assert(s.push(k).take(s.len() as int) =~= s);
    }
}

/// Pressing a key that was up and then releasing it gives back the keys held before.
pub proof fn lemma_press_then_release(s: Seq<Key>, k: Key)
    requires
        s.no_duplicates(),
        !s.contains(k),
    ensures
        spec_release(spec_press(s, k), k) == s,
{
    let t = s.push(k);
    assert(t[s.len() as int] == k);
    assert forall|a: int, b: int| 0 <= a < t.len() && 0 <= b < t.len() && a != b implies t[a]
        != t[b] by {
        if a == s.len() {
            assert(s.contains(t[b]) ==> t[b] != k);
            assert(t[b] == s[b]);
        } else if b == s.len() {
            assert(t[a] == s[a]);
        }
    }
    lemma_position_unique(t, k, s.len() as int);
    assert(t.remove(s.len() as int) =~= s);
}

/// Pressing a key that is down already changes nothing.
pub proof fn lemma_press_idempotent(s: Seq<Key>, k: Key)
    ensures
        spec_press(spec_press(s, k), k) == spec_press(s, k),
{
    if !s.contains(k) {
        assert(s.push(k)[s.len() as int] == k);
    }
}

/// Releasing a key that is up changes nothing.
pub proof fn lemma_release_absent(s: Seq<Key>, k: Key)
    requires
        !s.contains(k),
    ensures
        spec_release(s, k) == s,
{
}

/// After any presses and releases, a key is down exactly when it was pressed
/// and has not been released since: pressing adds exactly `k`, releasing
/// removes exactly `k`, and every other key stays as it was.
pub proof fn lemma_press_release_membership(s: Seq<Key>, k: Key, x: Key)
    requires
        s.no_duplicates(),
    ensures
        spec_press(s, k).contains(x) <==> (x == k || s.contains(x)),
        spec_release(s, k).contains(x) <==> (x != k && s.contains(x)),
{
    if !s.contains(k) {
        let t = s.push(k);
        assert(t[s.len() as int] == k);
        if t.contains(x) && x != k {
            let j = choose|j: int| 0 <= j < t.len() && t[j] == x;
            assert(s[j] == x);
        }
        if s.contains(x) {
            let j = choose|j: int| 0 <= j < s.len() && s[j] == x;
            assert(t[j] == x);
        }
    } else {
        let i = choose|i: int| 0 <= i < s.len() && s[i] == k;
        lemma_position_unique(s, k, i);
        lemma_remove_keeps_others(s, i);
    }
}

/// In a list without repeats, the only position that holds `k` is its first.
pub proof fn lemma_position_unique(s: Seq<Key>, k: Key, i: int)
    requires
        s.no_duplicates(),
        0 <= i < s.len(),
        s[i] == k,
    ensures
        position_of(s, k) == i,
{
    assert(is_first_position(s, k, i));
}

/// Removing the element at `i` from a list without repeats leaves a list
/// without repeats that no longer holds it.
pub proof fn lemma_remove_keeps_others(s: Seq<Key>, i: int)
    requires
        s.no_duplicates(),
        0 <= i < s.len(),
    ensures
        s.remove(i).no_duplicates(),
        !s.remove(i).contains(s[i]),
        forall|x: Key| x != s[i] ==> (s.remove(i).contains(x) <==> s.contains(x)),
{
    let r = s.remove(i);
    assert forall|a: int, b: int| 0 <= a < r.len() && 0 <= b < r.len() && a != b implies r[a]
        != r[b] by {
        let a2 = if a < i { a } else { a + 1 };
        let b2 = if b < i { b } else { b + 1 };
        assert(r[a] == s[a2] && r[b] == s[b2]);
    }
    if r.contains(s[i]) {
        let a = choose|a: int| 0 <= a < r.len() && r[a] == s[i];
        let a2 = if a < i { a } else { a + 1 };
        assert(r[a] == s[a2]);
    }
    assert forall|x: Key| x != s[i] implies (r.contains(x) <==> s.contains(x)) by {
        if s.contains(x) {
            let j = choose|j: int| 0 <= j < s.len() && s[j] == x;
            let j2 = if j < i { j } else { j - 1 };
            assert(r[j2] == x);
        }
        if r.contains(x) {
            let j = choose|j: int| 0 <= j < r.len() && r[j] == x;
            let j2 = if j < i { j } else { j + 1 };
            assert(s[j2] == x);
        }
    }
}

} // verus!
