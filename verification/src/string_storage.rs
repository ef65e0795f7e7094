use vstd::prelude::*;

verus! {

/// Unique identifier for an interned string
#[derive(Debug, Clone, Copy, PartialEq, Eq, Structural)]
pub struct StringId(usize);

impl StringId {
    /// The position of the string in its storage.
    pub closed spec fn index_spec(self) -> nat {
        self.0 as nat
    }
}

/// Law: a string id is determined by its position, so two ids at the same
/// position are the same id.
pub proof fn lemma_string_id_injective(a: StringId, b: StringId)
    ensures
        a.index_spec() == b.index_spec() ==> a == b,
{
}

/// Law: in a storage without repeats, a string is at one position only;
/// interning a stored string therefore gives back the id it got before.
pub proof fn lemma_stored_once(s: Seq<Seq<char>>, a: StringId, b: StringId)
    requires
        all_distinct(s),
        a.index_spec() < s.len(),
        b.index_spec() < s.len(),
        s[a.index_spec() as int] == s[b.index_spec() as int],
    ensures
        a == b,
{
}

/// String storage for deduplicating identifiers and string literals.
/// Strings are kept in insertion order and found again by linear search.
#[derive(Debug)]
pub struct StringStorage {
    strings: Vec<String>,
}

/// No string occurs twice in a sequence.
pub open spec fn all_distinct(s: Seq<Seq<char>>) -> bool {
    forall|i: int, j: int| 0 <= i < j < s.len() ==> s[i] != s[j]
}

impl View for StringStorage {
    type V = Seq<Seq<char>>;

    closed spec fn view(&self) -> Seq<Seq<char>> {
        Seq::new(self.strings@.len(), |i: int| self.strings@[i]@)
    }
}

impl StringStorage {
    #[verifier::type_invariant]
    closed spec fn inv(self) -> bool {
        all_distinct(self@)
    }

    /// Create a new empty string storage
    pub fn new() -> (r: Self)
        ensures
            r@ == Seq::<Seq<char>>::empty(),
    {
        let r = Self { strings: Vec::new() };
        assert(r@ =~= Seq::<Seq<char>>::empty());
        r
    }

    /// Intern a string and return its unique ID.
    /// If the string is already stored its existing ID is returned,
    /// otherwise the string is appended and gets the next ID.
    pub fn intern(&mut self, s: &str) -> (id: StringId)
        ensures
            old(self)@.contains(s@) ==> final(self)@ == old(self)@ && id.index_spec() < old(self)@.len()
                && old(self)@[id.index_spec() as int] == s@,
            !old(self)@.contains(s@) ==> final(self)@ == old(self)@.push(s@) && id.index_spec()
                == old(self)@.len(),
            id.index_spec() < final(self)@.len(),
            final(self)@[id.index_spec() as int] == s@,
            all_distinct(final(self)@),
    {
        proof {
            use_type_invariant(&*self);
        }
        let n = self.strings.len();
        let mut idx: usize = 0;
        while idx < n
            invariant
                n == self.strings@.len(),
                all_distinct(self@),
                0 <= idx <= n,
                forall|k: int| 0 <= k < idx ==> self@[k] != s@,
            decreases n - idx,
        {
            if str_equal(self.strings[idx].as_str(), s) {
                assert(self@[idx as int] == s@);
                assert(all_distinct(self@));
                return StringId(idx);
            }
            idx = idx + 1;
        }
        proof {
            assert(!self@.contains(s@)) by {
                if self@.contains(s@) {
                    let k = choose|k: int| 0 <= k < self@.len() && self@[k] == s@;
                    assert(self@[k] != s@);
                }
            }
        }
        let ghost old_view = self@;
        let mut strings: Vec<String> = Vec::new();
        std::mem::swap(&mut strings, &mut self.strings);
        strings.push(s.to_owned());
        proof {
            let nv = Seq::new(strings@.len(), |i: int| strings@[i]@);
            assert(nv =~= old_view.push(s@));
            assert(all_distinct(nv));
        }
        self.strings = strings;
        assert(self@ =~= old_view.push(s@));
        StringId(n)
    }

    /// Get string content by ID
    pub fn resolve(&self, id: StringId) -> (r: &str)
        requires
            id.index_spec() < self@.len(),
        ensures
            r@ == self@[id.index_spec() as int],
    {
        self.strings[id.0].as_str()
    }

    /// Get number of unique strings stored
    pub fn len(&self) -> (r: usize)
        ensures
            r == self@.len(),
    {
        self.strings.len()
    }

    /// Check if storage is empty
    pub fn is_empty(&self) -> (r: bool)
        ensures
            r == (self@.len() == 0),
    {
        self.strings.len() == 0
    }
}

impl Clone for StringStorage {
    fn clone(&self) -> (r: Self)
        ensures
            r@ == self@,
    {
        proof {
            use_type_invariant(self);
        }
        let mut strings: Vec<String> = Vec::new();
        let n = self.strings.len();
        let mut i: usize = 0;
        while i < n
            invariant
                n == self.strings@.len(),
                0 <= i <= n,
                strings@.len() == i,
                forall|k: int| 0 <= k < i ==> strings@[k]@ == self.strings@[k]@,
            decreases n - i,
        {
            strings.push(self.strings[i].clone());
            i = i + 1;
        }
        proof {
            let nv = Seq::new(strings@.len(), |k: int| strings@[k]@);
            assert(nv =~= self@);
        }
        let r = StringStorage { strings };
        assert(r@ =~= self@);
        r
    }
}

impl Default for StringStorage {
    fn default() -> (r: Self)
        ensures
            r@ == Seq::<Seq<char>>::empty(),
    {
        Self::new()
    }
}

/// Character-wise equality of two strings.
pub fn str_equal(a: &str, b: &str) -> (r: bool)
    ensures
        r == (a@ == b@),
{
    let n = a.unicode_len();
    let m = b.unicode_len();
    if n != m {
        return false;
    }
    let mut i: usize = 0;
    while i < n
        invariant
            n == a@.len(),
            m == b@.len(),
            n == m,
            0 <= i <= n,
            forall|k: int| 0 <= k < i ==> a@[k] == b@[k],
        decreases n - i,
    {
        if a.get_char(i) != b.get_char(i) {
            return false;
        }
        i = i + 1;
    }
    assert(a@ =~= b@);
    true
}

/// Law: interning the same string twice gives the same identifier, and
/// resolving an identifier gives back the string that was interned.
pub proof fn lemma_intern_idempotent(s: StringStorage, t: Seq<char>, k: nat)
    requires
        k < s@.len(),
        s@[k as int] == t,
        all_distinct(s@),
    ensures
        forall|j: int| 0 <= j < s@.len() && s@[j] == t ==> j == k,
{
}

} // verus!
