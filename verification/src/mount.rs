//! Mount point paths: absolute directory paths in one separator convention,
//! each ending in a separator.

use vstd::prelude::*;

verus! {

/// The separator of the platform's paths.
pub const SEPARATOR: char = '\\';

/// The separator that some callers write instead.
pub const ALTERNATE_SEPARATOR: char = '/';

/// `c`, or the platform's separator where `c` is the alternate one.
pub open spec fn native(c: char) -> char {
    if c == ALTERNATE_SEPARATOR {
        SEPARATOR
    } else {
        c
    }
}

/// Whether `text` has the form of a mount point path: it ends in a separator
/// and holds no alternate separator.
pub open spec fn is_normalized(text: Seq<char>) -> bool {
    &&& text.len() > 0
    &&& text.last() == SEPARATOR
    &&& forall|i: int| 0 <= i < text.len() ==> text[i] != ALTERNATE_SEPARATOR
}

/// `text` as a mount point path: every alternate separator replaced by the
/// platform's, and a separator added at the end unless one stands there.
pub open spec fn normalized(text: Seq<char>) -> Seq<char> {
    let replaced = text.map_values(|c: char| native(c));
    if replaced.len() > 0 && replaced.last() == SEPARATOR {
        replaced
    } else {
        replaced.push(SEPARATOR)
    }
}

/// What `normalized` yields has the form of a mount point path.
pub proof fn lemma_normalized_is_normalized(text: Seq<char>)
    ensures
        is_normalized(normalized(text)),
{
}

/// A path that has the form already is left as it is.
pub proof fn lemma_normalized_fixes_normalized(text: Seq<char>)
    requires
        is_normalized(text),
    ensures
        normalized(text) == text,
{
    assert(text.map_values(|c: char| native(c)) =~= text);
}

/// Normalizing twice is normalizing once.
pub proof fn lemma_normalized_idempotent(text: Seq<char>)
    ensures
        normalized(normalized(text)) == normalized(text),
{
    lemma_normalized_is_normalized(text);
    lemma_normalized_fixes_normalized(normalized(text));
}

/// A mount point path, always in normal form.
#[derive(Debug, PartialEq, Eq)]
pub struct MountPoint {
    chars: Vec<char>,
}

impl View for MountPoint {
    type V = Seq<char>;

    closed spec fn view(&self) -> Seq<char> {
        self.chars@
    }
}

impl MountPoint {
    /// The invariant of the type: the path is in normal form.
    #[verifier::type_invariant]
    pub open spec fn in_normal_form(self) -> bool {
        is_normalized(self@)
    }

    /// The mount point path that `path` names.
    pub fn new(path: &str) -> (mount_point: MountPoint)
        ensures
            mount_point@ == normalized(path@),
    {
        let mut chars: Vec<char> = Vec::new();
        for c in it: path.chars()
            invariant
                it.seq() == path@,
                chars@ == path@.take(it.index()).map_values(|c: char| native(c)),
        {
            chars.push(if c == ALTERNATE_SEPARATOR { SEPARATOR } else { c });
            assert(path@.take(it.index() + 1).drop_last() =~= path@.take(it.index()));
        }
        assert(path@.take(path@.len() as int) =~= path@);
        let n: usize = chars.len();
        if n == 0 || chars[n - 1] != SEPARATOR {
            chars.push(SEPARATOR);
        }
        MountPoint { chars }
    }

    /// The path, character by character.
    pub fn as_chars(&self) -> (chars: &Vec<char>)
        ensures
            chars@ == self@,
            is_normalized(self@),
    {
        proof {
            use_type_invariant(self);
        }
        &self.chars
    }

    /// The number of characters in the path.
    pub fn len(&self) -> (n: usize)
        ensures
            n == self@.len(),
    {
        self.chars.len()
    }

    /// Whether this path and `other` are the same path.
    pub fn same_as(&self, other: &MountPoint) -> (r: bool)
        ensures
            r == (self@ == other@),
    {
        assert(other@.subrange(0, other@.len() as int) =~= other@);
        self.chars.len() == other.chars.len() && self.is_prefix_of(other)
    }

    /// Whether this path is a prefix of `other`.
    pub fn is_prefix_of(&self, other: &MountPoint) -> (r: bool)
        ensures
            r == self@.is_prefix_of(other@),
    {
        let n: usize = self.chars.len();
        if n > other.chars.len() {
            return false;
        }
        let mut i: usize = 0;
        while i < n
            invariant
                n == self.chars@.len(),
                n <= other.chars@.len(),
                i <= n,
                forall|j: int| 0 <= j < i ==> self.chars@[j] == other.chars@[j],
            decreases n - i,
        {
            if self.chars[i] != other.chars[i] {
                assert(self@[i as int] != other@.subrange(0, n as int)[i as int]);
                return false;
            }
            i += 1;
        }
        assert(self@ =~= other@.subrange(0, n as int));
        true
    }
}

} // verus!
