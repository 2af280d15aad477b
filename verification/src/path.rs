//! Logical object-store paths: an ordered sequence of directory
//! components plus an optional terminal file name, and the verified
//! splitting of a listing key into such components.
//!
//! Components are carried as UTF-8 bytes, so that their order is the
//! strict lexicographic byte order that object-store listings promise.

use vstd::prelude::*;

verus! {

/// The byte that separates path components in a listing key.
pub open spec fn slash() -> u8 {
    47u8
}

/// A logical path: directory components, and an optional file name that
/// does not count towards the depth.
#[derive(Debug)]
pub struct PathBuf {
    pub components: Vec<Vec<u8>>,
    pub file_name: Option<Vec<u8>>,
}

impl PathBuf {
    /// The directory components, as byte strings.
    pub open spec fn components_view(&self) -> Seq<Seq<u8>> {
        self.components@.map_values(|c: Vec<u8>| c@)
    }

    /// The file name, if one is set.
    pub open spec fn file_name_view(&self) -> Option<Seq<u8>> {
        match self.file_name {
            Some(n) => Some(n@),
            None => None,
        }
    }

    /// The empty path: no components, no file name.
    pub fn new() -> (r: PathBuf)
        ensures
            r.components_view() == Seq::<Seq<u8>>::empty(),
            r.file_name_view() is None,
    {
        let r = PathBuf { components: Vec::new(), file_name: None };
        proof {
            assert(r.components_view() =~= Seq::<Seq<u8>>::empty());
        }
        r
    }

    /// The number of directory components; the file name is not counted.
    pub fn depth(&self) -> (r: usize)
        ensures
            r == self.components_view().len(),
    {
        self.components.len()
    }

    /// Append one directory component.
    pub fn push(&mut self, component: Vec<u8>)
        ensures
            final(self).components_view() == old(self).components_view().push(component@),
            final(self).file_name_view() == old(self).file_name_view(),
    {
        self.components.push(component);
        proof {
            assert(self.components_view() =~= old(self).components_view().push(
                self.components@[self.components@.len() - 1]@,
            ));
        }
    }

    /// Remove and return the last directory component, if any.
    pub fn pop(&mut self) -> (r: Option<Vec<u8>>)
        ensures
            old(self).components_view().len() == 0 ==> r is None && *final(self) == *old(self),
            old(self).components_view().len() > 0 ==> match r {
                Some(c) => c@ == old(self).components_view().last() && final(self).components_view()
                    == old(self).components_view().drop_last(),
                None => false,
            },
            final(self).file_name_view() == old(self).file_name_view(),
    {
        if self.components.len() == 0 {
            None
        } else {
            let r = self.components.pop();
            proof {
                assert(self.components_view() =~= old(self).components_view().drop_last());
            }
            r
        }
    }

    /// The last directory component, if any.
    pub fn last(&self) -> (r: Option<&Vec<u8>>)
        ensures
            self.components_view().len() == 0 ==> r is None,
            self.components_view().len() > 0 ==> match r {
                Some(c) => c@ == self.components_view().last(),
                None => false,
            },
    {
        if self.components.len() == 0 {
            None
        } else {
            Some(&self.components[self.components.len() - 1])
        }
    }

    /// Set or clear the file name.
    pub fn set_file_name(&mut self, name: Option<Vec<u8>>)
        ensures
            final(self).components_view() == old(self).components_view(),
            final(self).file_name_view() == (match name {
                Some(n) => Some(n@),
                None => None::<Seq<u8>>,
            }),
    {
        self.file_name = name;
    }

    /// The file name, if one is set.
    pub fn file_name(&self) -> (r: &Option<Vec<u8>>)
        ensures
            (match r {
                Some(n) => Some(n@),
                None => None::<Seq<u8>>,
            }) == self.file_name_view(),
    {
        &self.file_name
    }
}

/// The components of a key: the key split on the separator. A key with
/// no separator is one component; every separator ends a component, so
/// the result always has one more component than the key has separators.
pub open spec fn split_slash(k: Seq<u8>) -> Seq<Seq<u8>>
    decreases k.len(),
{
    if k.len() == 0 {
        seq![Seq::<u8>::empty()]
    } else if k[0] == slash() {
        seq![Seq::<u8>::empty()] + split_slash(k.skip(1))
    } else {
        let rest = split_slash(k.skip(1));
        seq![seq![k[0]] + rest[0]] + rest.skip(1)
    }
}

/// A split never has fewer than one component.
pub proof fn lemma_split_slash_len(k: Seq<u8>)
    ensures
        split_slash(k).len() >= 1,
    decreases k.len(),
{
    if k.len() == 0 {
    } else {
        lemma_split_slash_len(k.skip(1));
    }
}

/// Split a key on the separator byte.
pub fn split_slash_exec(k: &[u8]) -> (r: Vec<Vec<u8>>)
    ensures
        r@.map_values(|c: Vec<u8>| c@) == split_slash(k@),
        r@.len() >= 1,
{
    let n = k.len();
    let mut parts: Vec<Vec<u8>> = Vec::new();
    let mut cur: Vec<u8> = Vec::new();
    let mut i: usize = 0;
    proof {
        lemma_split_slash_len(k@);
        assert(k@.skip(0) =~= k@);
        assert(parts@.map_values(|c: Vec<u8>| c@) =~= Seq::<Seq<u8>>::empty());
        assert(split_slash(k@) =~= parts@.map_values(|c: Vec<u8>| c@) + seq![
            cur@ + split_slash(k@.skip(0))[0],
        ] + split_slash(k@.skip(0)).skip(1));
    }
    loop
        invariant
            i <= n,
            n == k@.len(),
            split_slash(k@) == parts@.map_values(|c: Vec<u8>| c@) + seq![
                cur@ + split_slash(k@.skip(i as int))[0],
            ] + split_slash(k@.skip(i as int)).skip(1),
        decreases n - i,
    {
        proof {
            lemma_split_slash_len(k@.skip(i as int));
        }
        if i == n {
            proof {
                assert(k@.skip(n as int) =~= Seq::<u8>::empty());
                assert(split_slash(k@.skip(n as int)) =~= seq![Seq::<u8>::empty()]);
                assert(cur@ + split_slash(k@.skip(n as int))[0] =~= cur@);
                assert(split_slash(k@.skip(n as int)).skip(1) =~= Seq::<Seq<u8>>::empty());
            }
            let ghost target = split_slash(k@);
            parts.push(cur);
            proof {
                assert(parts@.map_values(|c: Vec<u8>| c@) =~= target);
            }
            return parts;
        }
        let c = k[i];
        proof {
            assert(k@.skip(i as int)[0] == k@[i as int]);
            assert(k@.skip(i as int).skip(1) =~= k@.skip(i + 1));
            lemma_split_slash_len(k@.skip(i + 1));
        }
        let ghost parts_before = parts@.map_values(|c0: Vec<u8>| c0@);
        let ghost cur_before = cur@;
        if c == 47u8 {
            proof {
                let rest = split_slash(k@.skip(i + 1));
                assert(split_slash(k@.skip(i as int)) == seq![Seq::<u8>::empty()] + rest);
                assert(split_slash(k@.skip(i as int))[0] =~= Seq::<u8>::empty());
                assert(split_slash(k@.skip(i as int)).skip(1) =~= rest);
                assert(cur_before + split_slash(k@.skip(i as int))[0] =~= cur_before);
                assert(rest =~= seq![rest[0]] + rest.skip(1));
            }
            parts.push(cur);
            cur = Vec::new();
            proof {
                let rest = split_slash(k@.skip(i + 1));
                assert(parts@.map_values(|c0: Vec<u8>| c0@) =~= parts_before.push(cur_before));
                assert(cur@ + rest[0] =~= rest[0]);
                assert(split_slash(k@) =~= parts@.map_values(|c0: Vec<u8>| c0@) + seq![
                    cur@ + rest[0],
                ] + rest.skip(1));
            }
        } else {
            cur.push(c);
            proof {
                let rest = split_slash(k@.skip(i + 1));
                assert(split_slash(k@.skip(i as int)) == seq![seq![k@[i as int]] + rest[0]]
                    + rest.skip(1));
                assert(split_slash(k@.skip(i as int))[0] =~= seq![k@[i as int]] + rest[0]);
                assert(split_slash(k@.skip(i as int)).skip(1) =~= rest.skip(1));
                assert(cur@ =~= cur_before.push(k@[i as int]));
                assert(cur@ + rest[0] =~= cur_before + (seq![k@[i as int]] + rest[0]));
                assert(split_slash(k@) =~= parts@.map_values(|c0: Vec<u8>| c0@) + seq![
                    cur@ + rest[0],
                ] + rest.skip(1));
            }
        }
        i = i + 1;
    }
}

/// Whether one byte sequence begins with another.
pub fn starts_with(k: &[u8], prefix: &[u8]) -> (r: bool)
    ensures
        r == prefix@.is_prefix_of(k@),
{
    let plen = prefix.len();
    if k.len() < plen {
        proof {
            assert(!prefix@.is_prefix_of(k@));
        }
        return false;
    }
    let mut i: usize = 0;
    loop
        invariant
            i <= plen,
            plen == prefix@.len(),
            plen <= k@.len(),
            forall|j: int| 0 <= j < i ==> k@[j] == prefix@[j],
        decreases plen - i,
    {
        if i == plen {
            proof {
                assert(prefix@ =~= k@.subrange(0, plen as int));
            }
            return true;
        }
        if k[i] != prefix[i] {
            proof {
                assert(!prefix@.is_prefix_of(k@)) by {
                    if prefix@.is_prefix_of(k@) {
                        assert(prefix@ =~= k@.subrange(0, plen as int));
                        assert(prefix@[i as int] == k@[i as int]);
                    }
                }
            }
            return false;
        }
        i = i + 1;
    }
}

/// Copy the bytes of a slice from an index to its end.
pub fn subvec_from(k: &[u8], from: usize) -> (r: Vec<u8>)
    requires
        from <= k@.len(),
    ensures
        r@ == k@.skip(from as int),
{
    let n = k.len();
    let mut r: Vec<u8> = Vec::new();
    let mut i: usize = from;
    proof {
        assert(r@ =~= k@.subrange(from as int, from as int));
    }
    loop
        invariant
            from <= i <= n,
            n == k@.len(),
            r@ == k@.subrange(from as int, i as int),
        decreases n - i,
    {
        if i == n {
            proof {
                assert(k@.subrange(from as int, n as int) =~= k@.skip(from as int));
            }
            return r;
        }
        r.push(k[i]);
        proof {
            assert(r@ =~= k@.subrange(from as int, i + 1));
        }
        i = i + 1;
    }
}

} // verus!
