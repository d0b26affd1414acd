use vstd::prelude::*;
use vstd::string::StrSliceExecFns;
use vstd::laws_eq::obeys_concrete_eq;
use vstd::std_specs::cmp::PartialEqSpec;

verus! {

broadcast use vstd::array::group_array_axioms;

/// Number of characters held by an identifier.
pub const ID_SIZE: usize = 16;

/// The raw characters of an identifier, padded with `'\0'`.
pub type Identifier = [char; ID_SIZE];

/// The characters an identifier spelled by `s` holds: the first `ID_SIZE`
/// characters of `s`, padded with `'\0'` when `s` is shorter.
pub open spec fn id_chars(s: Seq<char>) -> Seq<char> {
    Seq::new(ID_SIZE as nat, |i: int| if i < s.len() { s[i] } else { '\0' })
}

fn id(s: &[char]) -> (r: Identifier)
    ensures
        r@ == id_chars(s@),
{
    let mut r: Identifier = ['\0'; ID_SIZE];
    let n: usize = if s.len() < ID_SIZE { s.len() } else { ID_SIZE };
    let mut i: usize = 0;
    while i < n
        invariant
            n <= ID_SIZE,
            n <= s@.len(),
            n == s@.len() || n == ID_SIZE,
            0 <= i <= n,
            r@.len() == ID_SIZE,
            forall|j: int| 0 <= j < i ==> r@[j] == s@[j],
            forall|j: int| i <= j < ID_SIZE ==> r@[j] == '\0',
        decreases n - i,
    {
        r[i] = s[i];
        i = i + 1;
    }
    assert(r@ =~= id_chars(s@));
    r
}

/// A fixed-length dictionary name. Two identifiers are equal exactly when
/// their characters are.
#[derive(Copy, Clone, Debug)]
pub struct Id {
    id: Identifier,
}

impl View for Id {
    type V = Seq<char>;

    closed spec fn view(&self) -> Seq<char> {
        self.id@
    }
}

/// Every identifier holds exactly `ID_SIZE` characters.
pub broadcast proof fn lemma_id_len(a: Id)
    ensures
        #[trigger] a@.len() == ID_SIZE,
{
}

/// Identifiers are equal exactly when their characters are.
pub broadcast proof fn lemma_id_eq(a: Id, b: Id)
    ensures
        #![trigger a@, b@]
        a@ == b@ <==> a == b,
{
    if a@ == b@ {
        assert(a.id =~= b.id);
    }
}

/// Comparing identifiers with `==` in executable code decides equality.
pub proof fn lemma_id_obeys_concrete_eq()
    ensures
        obeys_concrete_eq::<Id>(),
{
    broadcast use lemma_id_eq;

    reveal(obeys_concrete_eq);
}

/// The identifier spelled by `s`.
pub open spec fn id_of(s: Seq<char>) -> Id {
    choose|k: Id| k@ == id_chars(s)
}

impl Id {
    /// The identifier spelled by `s`, truncated or padded to `ID_SIZE` characters.
    pub fn from_chars(s: &[char]) -> (r: Id)
        ensures
            r@ == id_chars(s@),
            r == id_of(s@),
    {
        let r = Id { id: id(s) };
        proof {
            lemma_id_eq(r, id_of(s@));
        }
        r
    }
}

impl vstd::std_specs::cmp::PartialEqSpecImpl for Id {
    open spec fn obeys_eq_spec() -> bool {
        true
    }

    open spec fn eq_spec(&self, other: &Id) -> bool {
        self@ == other@
    }
}

impl PartialEq for Id {
    fn eq(&self, other: &Id) -> (r: bool) {
        let mut i: usize = 0;
        while i < ID_SIZE
            invariant
                0 <= i <= ID_SIZE,
                self.id@.len() == ID_SIZE,
                other.id@.len() == ID_SIZE,
                forall|j: int| 0 <= j < i ==> self.id@[j] == other.id@[j],
            decreases ID_SIZE - i,
        {
            if self.id[i] != other.id[i] {
                assert(self.id@[i as int] != other.id@[i as int]);
                return false;
            }
            i = i + 1;
        }
        assert(self.id@ =~= other.id@);
        true
    }
}

impl<'a> From<&'a str> for Id {
    fn from(s: &'a str) -> Id {
        let n = s.unicode_len();
        let mut chars: Vec<char> = Vec::new();
        let mut i: usize = 0;
        while i < n
            invariant
                n == s@.len(),
                0 <= i <= n,
                chars@ == s@.take(i as int),
            decreases n - i,
        {
            chars.push(s.get_char(i));
            assert(s@.take(i as int + 1) =~= s@.take(i as int).push(s@[i as int]));
            i = i + 1;
        }
        assert(s@.take(n as int) =~= s@);
        Id::from_chars(chars.as_slice())
    }
}

impl<'a> vstd::std_specs::convert::FromSpecImpl<&'a str> for Id {
    open spec fn obeys_from_spec() -> bool {
        true
    }

    open spec fn from_spec(v: &'a str) -> Id {
        id_of(v@)
    }
}

} // verus!
