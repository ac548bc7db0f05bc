use vstd::prelude::*;

verus! {

/// A filesystem path held as its sequence of components, each a byte string.
#[derive(Debug)]
pub struct ScanPath {
    components: Vec<Vec<u8>>,
}

impl View for ScanPath {
    type V = Seq<Seq<u8>>;

    closed spec fn view(&self) -> Seq<Seq<u8>> {
        self.components@.map_values(|c: Vec<u8>| c@)
    }
}

/// `prefix` is a leading run of whole components of `path`.
pub open spec fn is_prefix_of(prefix: Seq<Seq<u8>>, path: Seq<Seq<u8>>) -> bool {
    prefix.len() <= path.len() && path.subrange(0, prefix.len() as int) == prefix
}

/// Copies a byte string.
pub fn copy_bytes(b: &[u8]) -> (r: Vec<u8>)
    ensures
        r@ == b@,
{
    let mut r: Vec<u8> = Vec::new();
    let mut i: usize = 0;
    while i < b.len()
        invariant
            i <= b@.len(),
            r@ == b@.subrange(0, i as int),
        decreases b@.len() - i,
    {
        r.push(b[i]);
        i = i + 1;
    }
    assert(r@ =~= b@);
    r
}

/// Compares two byte strings.
pub fn bytes_equal(a: &[u8], b: &[u8]) -> (r: bool)
    ensures
        r == (a@ == b@),
{
    if a.len() != b.len() {
        return false;
    }
    let mut i: usize = 0;
    while i < a.len()
        invariant
            a@.len() == b@.len(),
            i <= a@.len(),
            a@.subrange(0, i as int) == b@.subrange(0, i as int),
        decreases a@.len() - i,
    {
        if a[i] != b[i] {
            assert(a@[i as int] != b@[i as int]);
            return false;
        }
        assert(a@.subrange(0, i + 1) =~= a@.subrange(0, i as int).push(a@[i as int]));
        assert(b@.subrange(0, i + 1) =~= b@.subrange(0, i as int).push(b@[i as int]));
        i = i + 1;
    }
    assert(a@ =~= a@.subrange(0, a@.len() as int));
    assert(b@ =~= b@.subrange(0, b@.len() as int));
    true
}

impl ScanPath {
    /// The path with no components.
    pub fn empty() -> (r: ScanPath)
        ensures
            r@ == Seq::<Seq<u8>>::empty(),
    {
        let r = ScanPath { components: Vec::new() };
        assert(r@ =~= Seq::<Seq<u8>>::empty());
        r
    }

    /// Builds a path from its components.
    pub fn from_components(components: Vec<Vec<u8>>) -> (r: ScanPath)
        ensures
            r@ == components@.map_values(|c: Vec<u8>| c@),
    {
        ScanPath { components }
    }

    /// Number of components.
    pub fn depth(&self) -> (r: usize)
        ensures
            r == self@.len(),
    {
        self.components.len()
    }

    /// A copy of component `i`.
    pub fn component(&self, i: usize) -> (r: Vec<u8>)
        requires
            i < self@.len(),
        ensures
            r@ == self@[i as int],
    {
        copy_bytes(self.components[i].as_slice())
    }

    /// The last component, if any.
    pub fn file_name(&self) -> (r: Option<Vec<u8>>)
        ensures
            self@.len() == 0 ==> r.is_none(),
            self@.len() > 0 ==> r.is_some() && r.unwrap()@ == self@.last(),
    {
        let n = self.components.len();
        if n == 0 {
            None
        } else {
            Some(copy_bytes(self.components[n - 1].as_slice()))
        }
    }

    /// A copy of this path.
    pub fn duplicate(&self) -> (r: ScanPath)
        ensures
            r@ == self@,
    {
        let mut comps: Vec<Vec<u8>> = Vec::new();
        let mut i: usize = 0;
        while i < self.components.len()
            invariant
                i <= self@.len(),
                comps@.map_values(|c: Vec<u8>| c@) == self@.subrange(0, i as int),
            decreases self@.len() - i,
        {
            let ghost before = comps@.map_values(|c: Vec<u8>| c@);
            let c = copy_bytes(self.components[i].as_slice());
            comps.push(c);
            assert(comps@.map_values(|c: Vec<u8>| c@) =~= before.push(self@[i as int]));
            assert(self@.subrange(0, i + 1) =~= self@.subrange(0, i as int).push(self@[i as int]));
            i = i + 1;
        }
        let r = ScanPath { components: comps };
        assert(r@ =~= self@);
        r
    }

    /// This path with one more component at its end.
    pub fn join(&self, name: &[u8]) -> (r: ScanPath)
        ensures
            r@ == self@.push(name@),
    {
        let mut r = self.duplicate();
        let c = copy_bytes(name);
        r.components.push(c);
        assert(r@ =~= self@.push(name@));
        r
    }

    /// Whether `prefix` is a leading run of whole components of this path.
    pub fn starts_with(&self, prefix: &ScanPath) -> (r: bool)
        ensures
            r == is_prefix_of(prefix@, self@),
    {
        let n = prefix.components.len();
        if n > self.components.len() {
            return false;
        }
        let mut i: usize = 0;
        while i < n
            invariant
                n == prefix@.len(),
                n <= self@.len(),
                i <= n,
                self@.subrange(0, i as int) == prefix@.subrange(0, i as int),
            decreases n - i,
        {
            if !bytes_equal(self.components[i].as_slice(), prefix.components[i].as_slice()) {
                assert(self@.subrange(0, n as int)[i as int] != prefix@[i as int]);
                return false;
            }
            assert(self@.subrange(0, i + 1) =~= self@.subrange(0, i as int).push(self@[i as int]));
            assert(prefix@.subrange(0, i + 1) =~= prefix@.subrange(0, i as int).push(prefix@[i as int]));
            i = i + 1;
        }
        assert(prefix@ =~= prefix@.subrange(0, n as int));
        true
    }

    /// This path with `root` taken off its front, or `None` when `root` does not
    /// prefix it.
    pub fn strip_prefix(&self, root: &ScanPath) -> (r: Option<ScanPath>)
        ensures
            r.is_some() == is_prefix_of(root@, self@),
            r.is_some() ==> r.unwrap()@ == self@.subrange(root@.len() as int, self@.len() as int),
    {
        if !self.starts_with(root) {
            return None;
        }
        let start = root.components.len();
        let mut comps: Vec<Vec<u8>> = Vec::new();
        let mut i: usize = start;
        while i < self.components.len()
            invariant
                start <= i <= self@.len(),
                start == root@.len(),
                comps@.map_values(|c: Vec<u8>| c@) == self@.subrange(start as int, i as int),
            decreases self@.len() - i,
        {
            let ghost before = comps@.map_values(|c: Vec<u8>| c@);
            let c = copy_bytes(self.components[i].as_slice());
            comps.push(c);
            assert(comps@.map_values(|c: Vec<u8>| c@) =~= before.push(self@[i as int]));
            assert(self@.subrange(start as int, i + 1) =~= self@.subrange(start as int, i as int).push(self@[i as int]));
            i = i + 1;
        }
        Some(ScanPath { components: comps })
    }
}

} // verus!
