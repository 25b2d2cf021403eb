//! A sequence container with list-style operations: a non-empty list of
//! values built head-first, with constant-time insertion right after the
//! head. Stored as the head value plus the rest of the list in reverse,
//! so that insertion after the head and teardown both avoid deep recursion.

use vstd::prelude::*;
use vstd::string::StringExecFns;

verus! {

/// A non-empty list of values. The abstract value is the sequence of
/// elements in list order, `self@`.
pub struct Node<T> {
    head: T,
    /// Elements after the head, stored in reverse list order.
    tail_rev: Vec<T>,
}

impl<T> View for Node<T> {
    type V = Seq<T>;

    closed spec fn view(&self) -> Seq<T> {
        seq![self.head] + self.tail_rev@.reverse()
    }
}

/// The subsequence of `s` selected by the mask `keep`, in order.
pub open spec fn masked<T>(s: Seq<T>, keep: Seq<bool>) -> Seq<T>
    decreases s.len(),
{
    if s.len() == 0 {
        Seq::empty()
    } else {
        let rest = masked(s.drop_last(), keep.drop_last());
        if keep.len() > 0 && keep.last() {
            rest.push(s.last())
        } else {
            rest
        }
    }
}

/// Appending one element to both sequence and mask extends the selection
/// at the end.
proof fn lemma_masked_push<T>(s: Seq<T>, keep: Seq<bool>, x: T, b: bool)
    requires
        s.len() == keep.len(),
    ensures
        masked(s.push(x), keep.push(b)) == if b {
            masked(s, keep).push(x)
        } else {
            masked(s, keep)
        },
{
    assert(s.push(x).drop_last() =~= s);
    assert(keep.push(b).drop_last() =~= keep);
    assert(s.push(x).last() == x);
}

impl<T: Clone> Clone for Node<T> {
    /// The clone holds, in the same order, a clone of each element; for an
    /// element type whose clone equals the original, the clone's value
    /// equals the original's.
    fn clone(&self) -> (res: Self)
        ensures
            res@.len() == self@.len(),
            forall|i: int| 0 <= i < self@.len() ==> vstd::pervasive::cloned::<T>(
                self@[i],
                #[trigger] res@[i],
            ),
    {
        let res = Node { head: self.head.clone(), tail_rev: self.tail_rev.clone() };
        proof {
            assert forall|i: int| 0 <= i < self@.len() implies vstd::pervasive::cloned::<T>(
                self@[i],
                #[trigger] res@[i],
            ) by {
                if i >= 1 {
                    let n = self.tail_rev@.len();
                    assert(self@[i] == self.tail_rev@[n - i]);
                    assert(res@[i] == res.tail_rev@[n - i]);
                }
            }
        }
        res
    }
}

impl<T> Node<T> {
    /// Creates a one-element list holding `value`.
    pub fn new(value: T) -> (n: Node<T>)
        ensures
            n@ == seq![value],
    {
        let n = Node { head: value, tail_rev: Vec::new() };
        proof {
            assert(n@ =~= seq![n.head]);
        }
        n
    }

    /// Inserts a value directly after the head, so it becomes the second
    /// element of the list.
    pub fn insert(&mut self, next: T)
        ensures
            final(self)@ == old(self)@.insert(1, next),
    {
        self.tail_rev.push(next);
        proof {
            assert(final(self)@ =~= old(self)@.insert(1, next));
        }
    }

    /// Returns a cursor over the elements, in list order.
    pub fn iter(&self) -> (it: NodeRefIter<'_, T>)
        ensures
            it.wf(),
            it.remaining() == self@,
    {
        let it = NodeRefIter { node: self, head_done: false, tail_left: self.tail_rev.len() };
        proof {
            assert(it.node.tail_rev@.take(it.tail_left as int) =~= self.tail_rev@);
        }
        it
    }

    /// Consumes the list and keeps, in order, exactly the elements the
    /// filter accepts; returns `None` when nothing is kept. The mask in
    /// the contract records the filter's answer for each element.
    pub fn retain<F: Fn(&T) -> bool>(self, filter: F) -> (r: Option<Node<T>>)
        requires
            forall|i: int| 0 <= i < self@.len() ==> call_requires(filter, (&self@[i],)),
        ensures
            exists|keep: Seq<bool>|
                {
                    &&& keep.len() == self@.len()
                    &&& (forall|i: int|
                        0 <= i < keep.len() ==> call_ensures(filter, (&self@[i],), #[trigger] keep[i]))
                    &&& (match r {
                        Some(node) => node@ == masked(self@, keep) && masked(self@, keep).len() > 0,
                        None => masked(self@, keep).len() == 0,
                    })
                },
    {
        let ghost full = self@;
        let Node { head, mut tail_rev } = self;
        let ghost keep: Seq<bool> = Seq::empty();
        let ghost seen: Seq<T> = Seq::empty();
        let mut kept: Vec<T> = Vec::new();

        let keep_head = filter(&head);
        proof {
            assert(full[0] == head);
            keep = keep.push(keep_head);
            seen = seen.push(head);
            lemma_masked_push(Seq::empty(), Seq::empty(), head, keep_head);
        }
        if keep_head {
            kept.push(head);
        }

        while tail_rev.len() > 0
            invariant
                seen.len() == keep.len(),
                full =~= seen + tail_rev@.reverse(),
                kept@ == masked(seen, keep),
                forall|i: int|
                    0 <= i < keep.len() ==> call_ensures(filter, (&seen[i],), #[trigger] keep[i]),
                forall|i: int| 0 <= i < full.len() ==> call_requires(filter, (&full[i],)),
            decreases tail_rev.len(),
        {
            let ghost pre = tail_rev@;
            let v = match tail_rev.pop() {
                Some(v) => v,
                None => {
                    proof {
                        assert(false);
                    }
                    unreached()
                },
            };
            proof {
                assert(pre.reverse()[0] == v);
                assert(seen.len() < full.len());
                assert(full[seen.len() as int] == (seen + pre.reverse())[seen.len() as int]);
                assert(full[seen.len() as int] == v);
            }
            let keep_v = filter(&v);
            proof {
                lemma_masked_push(seen, keep, v, keep_v);
                assert(seen.push(v) + tail_rev@.reverse() =~= seen + pre.reverse());
                keep = keep.push(keep_v);
                seen = seen.push(v);
            }
            if keep_v {
                kept.push(v);
            }
        }
        proof {
            assert(seen =~= full);
        }

        if kept.len() == 0 {
            proof {
                assert(masked(full, keep).len() == 0);
            }
            return None;
        }
        let ghost picked = kept@;
        let new_head = kept.remove(0);
        let ghost rest = kept@;
        let mut new_tail_rev: Vec<T> = Vec::new();
        while kept.len() > 0
            invariant
                rest =~= kept@ + new_tail_rev@.reverse(),
            decreases kept.len(),
        {
            let ghost pre_kept = kept@;
            let ghost pre_tail = new_tail_rev@;
            let v = match kept.pop() {
                Some(v) => v,
                None => {
                    proof {
                        assert(false);
                    }
                    unreached()
                },
            };
            new_tail_rev.push(v);
            proof {
                assert(kept@ + new_tail_rev@.reverse() =~= pre_kept + pre_tail.reverse());
            }
        }
        let node = Node { head: new_head, tail_rev: new_tail_rev };
        proof {
            assert(node@ =~= seq![new_head] + rest);
            assert(picked =~= seq![new_head] + rest);
            assert(node@ =~= masked(full, keep));
        }
        Some(node)
    }

    /// Consumes the list and returns a cursor that hands out the original
    /// values, in list order.
    pub fn into_iter(self) -> (it: NodeIntoIter<T>)
        ensures
            it.remaining() == self@,
    {
        NodeIntoIter { head: Some(self.head), tail_rev: self.tail_rev }
    }
}

/// The decimal digit `d` as a character; meaningful for `d < 10`.
pub open spec fn digit_char(d: nat) -> char {
    if d == 0 {
        '0'
    } else if d == 1 {
        '1'
    } else if d == 2 {
        '2'
    } else if d == 3 {
        '3'
    } else if d == 4 {
        '4'
    } else if d == 5 {
        '5'
    } else if d == 6 {
        '6'
    } else if d == 7 {
        '7'
    } else if d == 8 {
        '8'
    } else {
        '9'
    }
}

/// The decimal digits of `n`, most significant first.
pub open spec fn dec_digits(n: nat) -> Seq<char>
    decreases n,
{
    if n < 10 {
        seq![digit_char(n)]
    } else {
        dec_digits(n / 10).push(digit_char(n % 10))
    }
}

/// The elements of `s` in decimal, separated by commas.
pub open spec fn repr_items(s: Seq<u32>) -> Seq<char>
    decreases s.len(),
{
    if s.len() == 0 {
        Seq::empty()
    } else if s.len() == 1 {
        dec_digits(s[0] as nat)
    } else {
        repr_items(s.drop_last()) + seq![','] + dec_digits(s.last() as nat)
    }
}

/// The whole list in decimal, comma separated, between square brackets.
pub open spec fn list_repr(s: Seq<u32>) -> Seq<char> {
    seq!['['] + repr_items(s) + seq![']']
}

/// The decimal digit `d` as a one-character string.
fn digit_str(d: u32) -> (r: String)
    requires
        d < 10,
    ensures
        r@ == seq![digit_char(d as nat)],
{
    proof {
        reveal_strlit("0");
        reveal_strlit("1");
        reveal_strlit("2");
        reveal_strlit("3");
        reveal_strlit("4");
        reveal_strlit("5");
        reveal_strlit("6");
        reveal_strlit("7");
        reveal_strlit("8");
        reveal_strlit("9");
    }
    let s = if d == 0 {
        "0"
    } else if d == 1 {
        "1"
    } else if d == 2 {
        "2"
    } else if d == 3 {
        "3"
    } else if d == 4 {
        "4"
    } else if d == 5 {
        "5"
    } else if d == 6 {
        "6"
    } else if d == 7 {
        "7"
    } else if d == 8 {
        "8"
    } else {
        "9"
    };
    proof {
        assert(s@ =~= seq![digit_char(d as nat)]);
    }
    s.to_owned()
}

/// Renders `n` in decimal.
pub fn u32_str(n: u32) -> (r: String)
    ensures
        r@ == dec_digits(n as nat),
    decreases n,
{
    if n < 10 {
        digit_str(n)
    } else {
        let mut s = u32_str(n / 10);
        let d = digit_str(n % 10);
        s.append(d.as_str());
        proof {
            assert(dec_digits((n / 10) as nat) + seq![digit_char((n % 10) as nat)] =~= dec_digits(
                (n / 10) as nat,
            ).push(digit_char((n % 10) as nat)));
        }
        s
    }
}

impl Node<u32> {
    /// Renders the list as decimal values between square brackets, such
    /// as a four-element list printing as an opening bracket, the four
    /// numbers separated by commas, and a closing bracket.
    pub fn repr(&self) -> (r: String)
        ensures
            r@ == list_repr(self@),
    {
        proof {
            reveal_strlit("[");
            reveal_strlit(",");
            reveal_strlit("]");
        }
        let mut s = "[".to_owned();
        let hs = u32_str(self.head);
        s.append(hs.as_str());
        proof {
            assert(self@.take(1) =~= seq![self.head]);
            assert(s@ =~= seq!['['] + repr_items(self@.take(1)));
        }
        let tlen = self.tail_rev.len();
        let mut k: usize = 0;
        while k < tlen
            invariant
                k <= tlen,
                tlen == self.tail_rev@.len(),
                s@ == seq!['['] + repr_items(self@.take(1 + k as int)),
            decreases tlen - k,
        {
            proof {
                reveal_strlit(",");
            }
            s.append(",");
            let v = self.tail_rev[tlen - 1 - k];
            proof {
                assert(self@[1 + k as int] == self.tail_rev@.reverse()[k as int]);
                assert(self@[1 + k as int] == v);
            }
            let vs = u32_str(v);
            s.append(vs.as_str());
            proof {
                let shown = self@.take(2 + k as int);
                assert(shown.drop_last() =~= self@.take(1 + k as int));
                assert(shown.last() == v);
                assert(s@ =~= seq!['['] + repr_items(shown));
            }
            k += 1;
        }
        s.append("]");
        proof {
            assert(self@.take(1 + tlen as int) =~= self@);
            assert(s@ =~= list_repr(self@));
        }
        s
    }
}

/// A by-reference cursor over a [`Node`], in list order.
pub struct NodeRefIter<'a, T> {
    node: &'a Node<T>,
    head_done: bool,
    tail_left: usize,
}

impl<'a, T> NodeRefIter<'a, T> {
    /// The cursor points at a consistent position in its list.
    pub closed spec fn wf(self) -> bool {
        &&& self.tail_left <= self.node.tail_rev@.len()
        &&& !self.head_done ==> self.tail_left == self.node.tail_rev@.len()
    }

    /// The elements not yet handed out, in list order.
    pub closed spec fn remaining(self) -> Seq<T> {
        let tail = self.node.tail_rev@.take(self.tail_left as int).reverse();
        if self.head_done {
            tail
        } else {
            seq![self.node.head] + tail
        }
    }

    /// Hands out the next element, or `None` when the list is exhausted.
    pub fn next(&mut self) -> (r: Option<&'a T>)
        requires
            old(self).wf(),
        ensures
            final(self).wf(),
            match r {
                Some(v) => old(self).remaining().len() > 0 && *v == old(self).remaining()[0]
                    && final(self).remaining() == old(self).remaining().drop_first(),
                None => old(self).remaining().len() == 0 && *final(self) == *old(self),
            },
    {
        if !self.head_done {
            self.head_done = true;
            proof {
                assert(final(self).remaining() =~= old(self).remaining().drop_first());
            }
            Some(&self.node.head)
        } else if self.tail_left > 0 {
            let v = &self.node.tail_rev[self.tail_left - 1];
            proof {
                let k = self.tail_left as int;
                let t = self.node.tail_rev@;
                assert(t.take(k).reverse()[0] == t.take(k)[k - 1]);
                assert(t.take(k - 1).reverse() =~= t.take(k).reverse().drop_first());
            }
            self.tail_left = self.tail_left - 1;
            Some(v)
        } else {
            None
        }
    }
}

/// A by-value cursor over a consumed [`Node`], in list order.
pub struct NodeIntoIter<T> {
    head: Option<T>,
    tail_rev: Vec<T>,
}

impl<T> NodeIntoIter<T> {
    /// The values not yet handed out, in list order.
    pub closed spec fn remaining(self) -> Seq<T> {
        let tail = self.tail_rev@.reverse();
        match self.head {
            Some(h) => seq![h] + tail,
            None => tail,
        }
    }

    /// Hands out the next value, or `None` when all values are gone.
    pub fn next(&mut self) -> (r: Option<T>)
        ensures
            match r {
                Some(v) => old(self).remaining().len() > 0 && v == old(self).remaining()[0]
                    && final(self).remaining() == old(self).remaining().drop_first(),
                None => old(self).remaining().len() == 0 && final(self).remaining() == old(
                    self,
                ).remaining(),
            },
    {
        let first = self.head.take();
        match first {
            Some(h) => {
                proof {
                    assert(old(self).remaining()[0] == h);
                    assert(self.remaining() =~= old(self).remaining().drop_first());
                }
                Some(h)
            },
            None => {
                let ghost pre = self.tail_rev@;
                let v = self.tail_rev.pop();
                match v {
                    Some(x) => {
                        proof {
                            assert(pre.reverse()[0] == x);
                            assert(self.remaining() =~= old(self).remaining().drop_first());
                        }
                        Some(x)
                    },
                    None => None,
                }
            },
        }
    }
}

} // verus!
