//! The namespace scope tracker: a stack of prefix-to-URI binding frames, one
//! frame per open element.

use vstd::prelude::*;

use crate::events::NsBinding;

verus! {

/// The model of one binding frame.
pub open spec fn frame_model(f: Seq<NsBinding>) -> Seq<(Seq<char>, Seq<char>)> {
    f.map_values(|b: NsBinding| b@)
}

/// The URI the last binding of `p` in one frame gives, if any.
pub open spec fn lookup_frame(f: Seq<(Seq<char>, Seq<char>)>, p: Seq<char>) -> Option<Seq<char>>
    decreases f.len(),
{
    if f.len() == 0 {
        None
    } else if f.last().0 == p {
        Some(f.last().1)
    } else {
        lookup_frame(f.drop_last(), p)
    }
}

/// The URI a prefix resolves to: the innermost frame that binds it wins.
pub open spec fn resolve_model(
    scopes: Seq<Seq<(Seq<char>, Seq<char>)>>,
    p: Seq<char>,
) -> Option<Seq<char>>
    decreases scopes.len(),
{
    if scopes.len() == 0 {
        None
    } else {
        match lookup_frame(scopes.last(), p) {
            Some(u) => Some(u),
            None => resolve_model(scopes.drop_last(), p),
        }
    }
}

/// All bindings of all frames, outermost frame first; a later binding shadows
/// an earlier one of the same prefix.
pub open spec fn flatten_model(scopes: Seq<Seq<(Seq<char>, Seq<char>)>>) -> Seq<
    (Seq<char>, Seq<char>),
>
    decreases scopes.len(),
{
    if scopes.len() == 0 {
        Seq::empty()
    } else {
        flatten_model(scopes.drop_last()) + scopes.last()
    }
}

/// The active prefix-to-URI bindings, as a stack of frames pushed on each
/// start tag and popped on its matching end tag.
pub struct NamespaceScope {
    frames: Vec<Vec<NsBinding>>,
}

impl View for NamespaceScope {
    type V = Seq<Seq<(Seq<char>, Seq<char>)>>;

    closed spec fn view(&self) -> Seq<Seq<(Seq<char>, Seq<char>)>> {
        self.frames@.map_values(|f: Vec<NsBinding>| frame_model(f@))
    }
}

impl NamespaceScope {
    /// An empty stack: nothing is bound.
    pub fn new() -> (r: Self)
        ensures
            r@ == Seq::<Seq<(Seq<char>, Seq<char>)>>::empty(),
    {
        let r = NamespaceScope { frames: Vec::new() };
        proof {
            assert(r@ =~= Seq::<Seq<(Seq<char>, Seq<char>)>>::empty());
        }
        r
    }

    /// How many frames are open.
    pub fn depth(&self) -> (r: usize)
        ensures
            r == self@.len(),
    {
        self.frames.len()
    }

    /// Lays a new frame on top of the stack.
    pub fn push_frame(&mut self, frame: Vec<NsBinding>)
        ensures
            final(self)@ == old(self)@.push(frame_model(frame@)),
    {
        let ghost f = frame@;
        self.frames.push(frame);
        proof {
            assert(self@ =~= old(self)@.push(frame_model(f)));
        }
    }

    /// Removes the top frame; `false` (and no change) if none is open.
    pub fn pop_frame(&mut self) -> (r: bool)
        ensures
            r == (old(self)@.len() > 0),
            r ==> final(self)@ == old(self)@.drop_last(),
            !r ==> final(self)@ == old(self)@,
    {
        if self.frames.len() == 0 {
            false
        } else {
            let _ = self.frames.pop();
            proof {
                assert(self@ =~= old(self)@.drop_last());
            }
            true
        }
    }

    /// The URI `key` is bound to, innermost binding first; `None` if unbound.
    /// The default namespace is looked up under the empty key.
    #[verifier::loop_isolation(false)]
    pub fn resolve(&self, key: &String) -> (r: Option<String>)
        ensures
            match r {
                Some(u) => resolve_model(self@, key@) == Some(u@),
                None => resolve_model(self@, key@) is None,
            },
    {
        let mut fi = self.frames.len();
        proof {
            assert(self@.len() == self.frames@.len());
            assert(self@.take(self@.len() as int) =~= self@);
        }
        while fi > 0
            invariant
                fi <= self@.len(),
                resolve_model(self@, key@) == resolve_model(self@.take(fi as int), key@),
            decreases fi,
        {
            fi = fi - 1;
            let frame = &self.frames[fi];
            let ghost fm = frame_model(frame@);
            proof {
                assert(self@.take(fi as int + 1).last() == self@[fi as int]);
                assert(self@.take(fi as int + 1).drop_last() =~= self@.take(fi as int));
                assert(self@[fi as int] == fm);
            }
            let mut bi = frame.len();
            proof {
                assert(fm.len() == frame@.len());
                assert(fm.take(fm.len() as int) =~= fm);
            }
            while bi > 0
                invariant
                    bi <= fm.len(),
                    fm == frame_model(frame@),
                    frame == &self.frames[fi as int],
                    fi < self@.len(),
                    lookup_frame(fm, key@) == lookup_frame(fm.take(bi as int), key@),
                decreases bi,
            {
                bi = bi - 1;
                proof {
                    assert(fm.take(bi as int + 1).last() == fm[bi as int]);
                    assert(fm.take(bi as int + 1).drop_last() =~= fm.take(bi as int));
                }
                if frame[bi].prefix.eq(key) {
                    proof {
                        assert(lookup_frame(fm, key@) == Some(fm[bi as int].1));
                        assert(resolve_model(self@, key@) == Some(fm[bi as int].1));
                    }
                    return Some(frame[bi].uri.clone());
                }
            }
            proof {
                assert(fm.take(0) =~= Seq::<(Seq<char>, Seq<char>)>::empty());
                assert(lookup_frame(fm, key@) is None);
            }
        }
        proof {
            assert(self@.take(0) =~= Seq::<Seq<(Seq<char>, Seq<char>)>>::empty());
        }
        None
    }

    /// A point-in-time copy of every binding in effect, outermost frame
    /// first.
    #[verifier::loop_isolation(false)]
    pub fn snapshot(&self) -> (r: Vec<NsBinding>)
        ensures
            frame_model(r@) == flatten_model(self@),
    {
        let mut out: Vec<NsBinding> = Vec::new();
        let mut fi: usize = 0;
        while fi < self.frames.len()
            invariant
                fi <= self@.len(),
                frame_model(out@) == flatten_model(self@.take(fi as int)),
            decreases self@.len() - fi,
        {
            let frame = &self.frames[fi];
            let ghost fm = frame_model(frame@);
            proof {
                assert(self@[fi as int] == fm);
                assert(self@.take(fi as int + 1).last() == self@[fi as int]);
                assert(self@.take(fi as int + 1).drop_last() =~= self@.take(fi as int));
            }
            let mut bi: usize = 0;
            while bi < frame.len()
                invariant
                    bi <= fm.len(),
                    fm == frame_model(frame@),
                    frame == &self.frames[fi as int],
                    fi < self@.len(),
                    frame_model(out@) == flatten_model(self@.take(fi as int)) + fm.take(
                        bi as int,
                    ),
                decreases fm.len() - bi,
            {
                let ghost out_old = out@;
                out.push(frame[bi].clone());
                proof {
                    assert(frame_model(out@) =~= frame_model(out_old).push(fm[bi as int]));
                    assert(fm.take(bi as int + 1) =~= fm.take(bi as int).push(fm[bi as int]));
                    assert(frame_model(out@) =~= flatten_model(self@.take(fi as int)) + fm.take(
                        bi as int + 1,
                    ));
                }
                bi = bi + 1;
            }
            proof {
                assert(fm.take(fm.len() as int) =~= fm);
                assert(flatten_model(self@.take(fi as int + 1)) == flatten_model(
                    self@.take(fi as int),
                ) + fm);
            }
            fi = fi + 1;
        }
        proof {
            assert(self@.take(self@.len() as int) =~= self@);
        }
        out
    }
}

} // verus!
