//! The read-only set of assets that URLs are built for and requests are
//! served from, keyed by logical path.

use vstd::prelude::*;

verus! {

/// Number of bytes in an asset's content digest.
pub const DIGEST_LEN: usize = 32;

/// One asset: its logical path, its bytes, the digest of those bytes and its
/// MIME type.
pub struct Asset {
    pub path: String,
    pub data: Vec<u8>,
    pub digest: [u8; 32],
    pub mime: String,
}

/// What an asset holds, as plain sequences.
pub struct AssetView {
    pub path: Seq<char>,
    pub data: Seq<u8>,
    pub digest: Seq<u8>,
    pub mime: Seq<char>,
}

impl View for Asset {
    type V = AssetView;

    open spec fn view(&self) -> AssetView {
        AssetView {
            path: self.path@,
            data: self.data@,
            digest: self.digest@,
            mime: self.mime@,
        }
    }
}

impl Asset {
    pub fn new(path: String, data: Vec<u8>, digest: [u8; 32], mime: String) -> (r: Asset)
        ensures
            r.path == path,
            r.data == data,
            r.digest == digest,
            r.mime == mime,
    {
        Asset { path, data, digest, mime }
    }
}

/// Assets keyed by logical path; no two hold the same path.
pub struct Registry {
    assets: Vec<Asset>,
}

/// No two assets of `s` hold the same path.
pub open spec fn unique_paths(s: Seq<Asset>) -> bool {
    forall|i: int, j: int|
        0 <= i < s.len() && 0 <= j < s.len() && i != j ==> s[i].path@ != s[j].path@
}

/// The assets of `s`, keyed by path.
pub open spec fn keyed(s: Seq<Asset>) -> Map<Seq<char>, AssetView> {
    Map::new(
        |k: Seq<char>| exists|i: int| 0 <= i < s.len() && s[i].path@ == k,
        |k: Seq<char>| s[choose|i: int| 0 <= i < s.len() && s[i].path@ == k]@,
    )
}

proof fn lemma_keyed_at(s: Seq<Asset>, i: int)
    requires
        unique_paths(s),
        0 <= i < s.len(),
    ensures
        keyed(s).contains_key(s[i].path@),
        keyed(s)[s[i].path@] == s[i]@,
{
    let k = s[i].path@;
    assert(exists|j: int| 0 <= j < s.len() && s[j].path@ == k);
}

impl View for Registry {
    type V = Map<Seq<char>, AssetView>;

    closed spec fn view(&self) -> Map<Seq<char>, AssetView> {
        keyed(self.assets@)
    }
}

impl Registry {
    /// No two assets share a path.
    pub closed spec fn wf(&self) -> bool {
        unique_paths(self.assets@)
    }

    /// Every asset is stored under its own path, with a digest of full length.
    pub open spec fn well_keyed(&self) -> bool {
        forall|k: Seq<char>| #[trigger]
            self@.contains_key(k) ==> self@[k].path == k && self@[k].digest.len() == DIGEST_LEN
    }

    /// Every registry is well keyed.
    pub proof fn lemma_well_keyed(&self)
        ensures
            self.well_keyed(),
    {
        assert forall|k: Seq<char>| #[trigger] self@.contains_key(k) implies self@[k].path == k
            && self@[k].digest.len() == DIGEST_LEN by {
            let i = choose|i: int| 0 <= i < self.assets.len() && self.assets[i].path@ == k;
            assert(self.assets[i].digest@.len() == DIGEST_LEN);
        }
    }

    /// An empty registry.
    pub fn new() -> (r: Registry)
        ensures
            r.wf(),
            r@ == Map::<Seq<char>, AssetView>::empty(),
    {
        let r = Registry { assets: Vec::new() };
        assert(r@ =~= Map::<Seq<char>, AssetView>::empty());
        r
    }

    /// Position of the asset stored under `path`, if any.
    fn position(&self, path: &String) -> (r: Option<usize>)
        ensures
            match r {
                Some(i) => i < self.assets.len() && self.assets[i as int].path@ == path@,
                None => forall|i: int|
                    0 <= i < self.assets.len() ==> self.assets[i].path@ != path@,
            },
    {
        let mut i: usize = 0;
        while i < self.assets.len()
            invariant
                i <= self.assets.len(),
                forall|j: int| 0 <= j < i ==> self.assets[j].path@ != path@,
            decreases self.assets.len() - i,
        {
            if self.assets[i].path == *path {
                return Some(i);
            }
            i = i + 1;
        }
        None
    }

    /// The asset stored under `path`.
    pub fn get(&self, path: &str) -> (r: Option<&Asset>)
        requires
            self.wf(),
        ensures
            match r {
                Some(a) => self@.contains_key(path@) && self@[path@] == a@,
                None => !self@.contains_key(path@),
            },
    {
        let key = String::from_str(path);
        match self.position(&key) {
            Some(i) => {
                proof {
                    lemma_keyed_at(self.assets@, i as int);
                }
                Some(&self.assets[i])
            },
            None => None,
        }
    }

    /// Stores `asset` under its path, in place of any asset stored there before.
    pub fn insert(&mut self, asset: Asset)
        requires
            old(self).wf(),
        ensures
            final(self).wf(),
            final(self)@ == old(self)@.insert(asset.path@, asset@),
    {
        let ghost s = self.assets@;
        let ghost k = asset.path@;
        let ghost a = asset@;
        let pos = self.position(&asset.path);
        let ghost at: int = match pos {
            Some(i) => i as int,
            None => s.len() as int,
        };
        let ghost t = if pos is Some { s.update(at, asset) } else { s.push(asset) };
        proof {
            assert(unique_paths(t));
            assert forall|x: Seq<char>| #[trigger] keyed(t).contains_key(x) == keyed(s).insert(
                k,
                a,
            ).contains_key(x) by {
                if x != k && keyed(s).contains_key(x) {
                    let j = choose|j: int| 0 <= j < s.len() && s[j].path@ == x;
                    assert(t[j].path@ == x);
                }
                if keyed(t).contains_key(x) && x != k {
                    let j = choose|j: int| 0 <= j < t.len() && t[j].path@ == x;
                    assert(s[j].path@ == x);
                }
                if x == k {
                    assert(t[at].path@ == k);
                }
            }
            assert forall|x: Seq<char>| #[trigger] keyed(t).contains_key(x) implies keyed(t)[x]
                == keyed(s).insert(k, a)[x] by {
                let j = choose|j: int| 0 <= j < t.len() && t[j].path@ == x;
                lemma_keyed_at(t, j);
                if x != k {
                    lemma_keyed_at(s, j);
                } else {
                    lemma_keyed_at(t, at);
                }
            }
            assert(keyed(t) =~= keyed(s).insert(k, a));
        }
        match pos {
            Some(i) => {
                self.assets.set(i, asset);
            },
            None => {
                self.assets.push(asset);
            },
        }
        assert(self.assets@ == t);
    }
}

} // verus!
