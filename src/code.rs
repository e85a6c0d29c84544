use rand::seq::IteratorRandom;
use vstd::prelude::*;

verus! {

/// Number of letters in a session code.
pub const CODE_LENGTH: usize = 5;

/// How many random codes are drawn before generation gives up.
pub const MAX_ATTEMPTS: usize = 64;

/// A lowercase ASCII letter.
pub open spec fn is_code_letter(c: char) -> bool {
    'a' <= c && c <= 'z'
}

/// Exactly `CODE_LENGTH` lowercase letters.
pub open spec fn is_session_code(s: Seq<char>) -> bool {
    &&& s.len() == CODE_LENGTH
    &&& forall|i: int| 0 <= i < s.len() ==> #[trigger] is_code_letter(s[i])
}

/// A short, human-typeable identifier of one listening session.
#[derive(Debug)]
pub struct SessionCode {
    letters: Vec<char>,
}

impl View for SessionCode {
    type V = Seq<char>;

    closed spec fn view(&self) -> Seq<char> {
        self.letters@
    }
}

impl SessionCode {
    /// Every code holds exactly five lowercase letters.
    pub open spec fn wf(&self) -> bool {
        is_session_code(self@)
    }

    /// Accepts `letters` as a code when it is five lowercase letters.
    pub fn from_letters(letters: Vec<char>) -> (r: Option<SessionCode>)
        ensures
            r is Some <==> is_session_code(letters@),
            r matches Some(c) ==> c.wf() && c@ == letters@,
    {
        if letters.len() != CODE_LENGTH {
            return None;
        }
        let mut i: usize = 0;
        while i < letters.len()
            invariant
                letters@.len() == CODE_LENGTH,
                i <= letters@.len(),
                forall|j: int| 0 <= j < i ==> #[trigger] is_code_letter(letters@[j]),
            decreases letters@.len() - i,
        {
            let c = letters[i];
            if !('a' <= c && c <= 'z') {
                assert(!is_code_letter(letters@[i as int]));
                return None;
            }
            i = i + 1;
        }
        Some(SessionCode { letters })
    }

    /// The letters of the code, in order.
    pub fn letters(&self) -> (r: Vec<char>)
        ensures
            r@ == self@,
    {
        let mut r: Vec<char> = Vec::new();
        let mut i: usize = 0;
        while i < self.letters.len()
            invariant
                i <= self.letters@.len(),
                r@ == self.letters@.subrange(0, i as int),
            decreases self.letters@.len() - i,
        {
            r.push(self.letters[i]);
            i = i + 1;
            assert(r@ =~= self.letters@.subrange(0, i as int));
        }
        assert(r@ =~= self.letters@);
        r
    }

    /// A second value with the same letters.
    pub fn duplicate(&self) -> (r: SessionCode)
        ensures
            r@ == self@,
    {
        SessionCode { letters: self.letters() }
    }

    /// Whether two codes hold the same letters.
    pub fn same_as(&self, other: &SessionCode) -> (r: bool)
        ensures
            r == (self@ == other@),
    {
        if self.letters.len() != other.letters.len() {
            return false;
        }
        let mut i: usize = 0;
        while i < self.letters.len()
            invariant
                self.letters@.len() == other.letters@.len(),
                i <= self.letters@.len(),
                forall|j: int| 0 <= j < i ==> self.letters@[j] == other.letters@[j],
            decreases self.letters@.len() - i,
        {
            if self.letters[i] != other.letters[i] {
                return false;
            }
            i = i + 1;
        }
        assert(self.letters@ =~= other.letters@);
        true
    }
}

/// Relies on rand's `IteratorRandom::choose` over `str::chars` with the
/// thread-local generator: it returns `None` exactly when the string has no
/// characters, and otherwise one of the string's characters.
#[verifier::external_body]
fn choose_letter(alphabet: &str) -> (r: Option<char>)
    ensures
        r is None <==> alphabet@.len() == 0,
        r matches Some(c) ==> alphabet@.contains(c),
{
    alphabet.chars().choose(&mut rand::thread_rng())
}

/// Draws one random code, each letter independently from the alphabet.
pub fn random_code() -> (r: SessionCode)
    ensures
        r.wf(),
        is_session_code(r@),
{
    proof {
        reveal_strlit("abcdefghijklmnopqrstuvwxyz");
    }
    let alphabet: &str = "abcdefghijklmnopqrstuvwxyz";
    let mut letters: Vec<char> = Vec::new();
    let mut i: usize = 0;
    while i < CODE_LENGTH
        invariant
            i <= CODE_LENGTH,
            letters@.len() == i,
            forall|j: int| 0 <= j < i ==> #[trigger] is_code_letter(letters@[j]),
            alphabet@ == seq!['a', 'b', 'c', 'd', 'e', 'f', 'g', 'h', 'i', 'j', 'k', 'l', 'm', 'n', 'o', 'p', 'q', 'r', 's', 't', 'u', 'v', 'w', 'x', 'y', 'z'],
        decreases CODE_LENGTH - i,
    {
        let picked = choose_letter(alphabet);
        let c = match picked {
            Some(c) => c,
            None => 'a',
        };
        proof {
            if picked is Some {
                let k = choose|k: int| 0 <= k < alphabet@.len() && alphabet@[k] == c;
                assert(is_code_letter(alphabet@[k]));
            }
        }
        letters.push(c);
        i = i + 1;
    }
    SessionCode { letters }
}

} // verus!
