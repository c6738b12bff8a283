use vstd::prelude::*;

verus! {

/// A canonical path: fully resolved, symlink-free and absolute, held as its
/// sequence of normal components (UTF-8 bytes each), root implicit.
///
/// Canonicalization itself needs the filesystem, so the process edge resolves
/// a path before building a `CanonPath`; everything here compares paths by
/// their component sequences, never as raw strings.
pub struct CanonPath {
    pub components: Vec<Vec<u8>>,
}

impl View for CanonPath {
    type V = Seq<Seq<u8>>;

    open spec fn view(&self) -> Seq<Seq<u8>> {
        self.components@.map(|i: int, c: Vec<u8>| c@)
    }
}

/// Copy a byte vector element by element.
pub fn clone_bytes(v: &Vec<u8>) -> (r: Vec<u8>)
    ensures
        r@ == v@,
{
    let mut r: Vec<u8> = Vec::new();
    let mut i: usize = 0;
    while i < v.len()
        invariant
            i <= v@.len(),
            r@ =~= v@.subrange(0, i as int),
        decreases v@.len() - i,
    {
        r.push(v[i]);
        i += 1;
    }
    proof {
        assert(r@ =~= v@);
    }
    r
}

impl Clone for CanonPath {
    fn clone(&self) -> (r: Self)
        ensures
            r@ == self@,
    {
        let mut components: Vec<Vec<u8>> = Vec::new();
        let mut i: usize = 0;
        while i < self.components.len()
            invariant
                i <= self.components@.len(),
                components@.len() == i as int,
                forall|j: int| 0 <= j < i ==> components@[j]@ == self.components@[j]@,
            decreases self.components@.len() - i,
        {
            components.push(clone_bytes(&self.components[i]));
            i += 1;
        }
        let r = CanonPath { components };
        proof {
            assert(r@ =~~= self@);
        }
        r
    }
}

/// Whether two byte vectors hold the same bytes.
pub fn bytes_eq(a: &Vec<u8>, b: &Vec<u8>) -> (r: bool)
    ensures
        r <==> a@ == b@,
{
    if a.len() != b.len() {
        return false;
    }
    let mut i: usize = 0;
    while i < a.len()
        invariant
            a@.len() == b@.len(),
            i <= a@.len(),
            forall|j: int| 0 <= j < i ==> a@[j] == b@[j],
        decreases a@.len() - i,
    {
        if a[i] != b[i] {
            return false;
        }
        i += 1;
    }
    proof {
        assert(a@ =~= b@);
    }
    true
}

/// Whether two canonical paths are the same path.
pub fn path_eq(a: &CanonPath, b: &CanonPath) -> (r: bool)
    ensures
        r <==> a@ == b@,
{
    if a.components.len() != b.components.len() {
        proof {
            assert(a@.len() != b@.len());
        }
        return false;
    }
    let mut i: usize = 0;
    while i < a.components.len()
        invariant
            a@.len() == a.components@.len(),
            b@.len() == b.components@.len(),
            a.components@.len() == b.components@.len(),
            i <= a.components@.len(),
            forall|j: int| 0 <= j < i ==> a@[j] == b@[j],
        decreases a.components@.len() - i,
    {
        if !bytes_eq(&a.components[i], &b.components[i]) {
            proof {
                assert(a@[i as int] != b@[i as int]);
            }
            return false;
        }
        i += 1;
    }
    proof {
        assert(a@ =~~= b@);
    }
    true
}

/// Whether path `p` lies within the subtree rooted at directory `dir`:
/// containment of component sequences, never a string-prefix test, so a
/// sibling such as `/a/b2` is not within `/a/b`.
pub open spec fn in_subtree(dir: Seq<Seq<u8>>, p: Seq<Seq<u8>>) -> bool {
    dir.len() <= p.len() && forall|i: int| 0 <= i < dir.len() ==> p[i] == dir[i]
}

/// Whether path `p` lies within the subtree rooted at `dir`.
pub fn path_in_dir(p: &CanonPath, dir: &CanonPath) -> (r: bool)
    ensures
        r <==> in_subtree(dir@, p@),
{
    if dir.components.len() > p.components.len() {
        return false;
    }
    let mut i: usize = 0;
    while i < dir.components.len()
        invariant
            p@.len() == p.components@.len(),
            dir@.len() == dir.components@.len(),
            dir.components@.len() <= p.components@.len(),
            i <= dir.components@.len(),
            forall|j: int| 0 <= j < i ==> p@[j] == dir@[j],
        decreases dir.components@.len() - i,
    {
        if !bytes_eq(&p.components[i], &dir.components[i]) {
            proof {
                assert(p@[i as int] != dir@[i as int]);
            }
            return false;
        }
        i += 1;
    }
    true
}

} // verus!
