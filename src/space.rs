//! Address-space duplication for `fork`: user pages are copied eagerly
//! into fresh frames, kernel directory entries are shared.
use vstd::prelude::*;
use crate::pte::{PRESENT, WRITE, entry_addr, entry_present, entry_flags, page_present, page_flags, page_addr};
use crate::physical::{PhysMem, MAX_WORDS};
use crate::paging::{
    pde, pte_word, mapped, frame, translate, read_virt, dir_ok, tables_ok, tables_distinct, frames_ok, recursive, space_ok,
    new_directory, get_page, set_page, fetch_table, lemma_grow_keeps, lemma_frames_disjoint, USER_FIRST_PAGE, USER_END_PAGE,
    KERNEL_SLOT,
};

verus! {

/// Words that cloning may allocate at most: every user page and table,
/// the directory, and every kernel table.
pub const CLONE_WORDS: usize = 0x3000_0000;

/// The frame at `a` in `m` holds what the frame at `b` holds in `m0`.
pub open spec fn same_frame(m: Seq<u32>, a: int, m0: Seq<u32>, b: int) -> bool {
    forall|w: int| 0 <= w < 1024 ==> #[trigger] m[a / 4 + w] == m0[b / 4 + w]
}

/// User page `q` of `child` in `m` is a copy of page `q` of `parent` in
/// `m0`, in a frame at or above word `lo`.
pub open spec fn page_cloned(m0: Seq<u32>, parent: int, m: Seq<u32>, child: int, lo: int, q: int) -> bool {
    &&& mapped(m, child, q) == mapped(m0, parent, q)
    &&& mapped(m0, parent, q) ==> {
        &&& entry_flags(pte_word(m, child, q)) == entry_flags(pte_word(m0, parent, q))
        &&& frame(m, child, q) / 4 >= lo
        &&& frame(m, child, q) / 4 + 1024 <= m.len()
        &&& same_frame(m, frame(m, child, q), m0, frame(m0, parent, q))
    }
}

/// State of `clone_directory` once the user pages below `p` are copied.
pub open spec fn clone_user_inv(m0: Seq<u32>, c: int, m: Seq<u32>, d: int, p: int) -> bool {
    let n0 = m0.len() as int;
    &&& d == n0 * 4
    &&& USER_FIRST_PAGE <= p <= USER_END_PAGE
    &&& dir_ok(m, d)
    &&& tables_ok(m, d)
    &&& tables_distinct(m, d)
    &&& m.len() >= n0 + 1024
    &&& pde(m, d, 0) == pde(m0, c, 0)
    &&& (forall|k: int| 768 <= k < 1023 ==> #[trigger] pde(m, d, k) == 0)
    &&& recursive(m, d)
    &&& (forall|k: int| 1 <= k < 768 && #[trigger] entry_present(pde(m, d, k))
        ==> entry_addr(pde(m, d, k)) / 4 >= n0 + 1024)
    &&& (forall|w: int| 0 <= w < n0 ==> #[trigger] m[w] == m0[w])
    &&& (forall|q: int| USER_FIRST_PAGE <= q < p ==> #[trigger] page_cloned(m0, c, m, d, n0 + 1024, q))
    &&& (forall|q: int| p <= q < USER_END_PAGE ==> #[trigger] pte_word(m, d, q) == 0)
    &&& (forall|q: int, k: int| USER_FIRST_PAGE <= q < p && 1 <= k < 768
        && #[trigger] mapped(m, d, q) && #[trigger] entry_present(pde(m, d, k))
        ==> frame(m, d, q) != entry_addr(pde(m, d, k)))
}

/// One copied page keeps `clone_user_inv`.
#[verifier::rlimit(60)]
proof fn lemma_clone_step(
    m0: Seq<u32>, c: int, mb: Seq<u32>, ma2: Seq<u32>, ma3: Seq<u32>,
    d: int, p: int, dst: int, src: u32, t: int,
)
    requires
        clone_user_inv(m0, c, mb, d, p),
        p < USER_END_PAGE,
        mapped(m0, c, p),
        src == pte_word(m0, c, p),
        frame(m0, c, p) / 4 + 1024 <= m0.len(),
        dst == mb.len() * 4,
        mb.len() % 1024 == 0,
        ma2.len() == mb.len() + 1024 || ma2.len() == mb.len() + 2048,
        pte_word(ma2, d, p) as int == dst + entry_flags(src),
        forall|q: int| 0 <= q < 1023 * 1024 && q != p ==> #[trigger] pte_word(ma2, d, q) == pte_word(mb, d, q),
        dir_ok(ma2, d),
        tables_ok(ma2, d),
        tables_distinct(ma2, d),
        entry_present(pde(ma2, d, p / 1024)),
        t == entry_addr(pde(ma2, d, p / 1024)),
        t % 4096 == 0,
        t / 4 + 1024 <= ma2.len(),
        entry_present(pde(mb, d, p / 1024)) ==> t == entry_addr(pde(mb, d, p / 1024)),
        !entry_present(pde(mb, d, p / 1024)) ==> t / 4 >= mb.len() + 1024,
        forall|w: int| 0 <= w < mb.len() && w != d as int / 4 + p as int / 1024 && w != t / 4 + p as int % 1024
            ==> #[trigger] ma2[w] == mb[w],
        ma3.len() == ma2.len(),
        forall|w: int| 0 <= w < 1024 ==> #[trigger] ma3[dst / 4 + w] == ma2[frame(m0, c, p) / 4 + w],
        forall|w: int| 0 <= w < ma2.len() && !(dst / 4 <= w < dst / 4 + 1024) ==> #[trigger] ma3[w] == ma2[w],
    ensures
        clone_user_inv(m0, c, ma3, d, p + 1),
        entry_present(pde(ma3, d, p / 1024)),
        forall|kk: int| 0 <= kk < 1024 && kk != p / 1024 ==> #[trigger] pde(ma3, d, kk) == pde(mb, d, kk),
{
    let n0 = m0.len() as int;
    let k = p / 1024;
    let j = p % 1024;
    let sf = frame(m0, c, p);
    assert(d / 4 == n0);
    assert(dst / 4 == mb.len());
    assert(dst % 4096 == 0);
    assert(t != d) by {
        assert(entry_present(pde(ma2, d, k)));
    }
    // Directory and table words are not in the new data frame.
    assert forall|kk: int| 0 <= kk < 1024 implies #[trigger] pde(ma3, d, kk) == pde(ma2, d, kk) by {
        lemma_frames_disjoint(dst, d, 0, kk);
    }
    assert forall|kk: int| 0 <= kk < 1023 && #[trigger] entry_present(pde(ma2, d, kk))
        implies entry_addr(pde(ma2, d, kk)) != dst by {
        if kk == k {
        } else {
            lemma_frames_disjoint(t, d, j, kk);
            assert(pde(ma2, d, kk) == pde(mb, d, kk));
            assert(entry_present(pde(mb, d, kk)));
        }
    }
    assert forall|kk: int| 0 <= kk < 1024 && kk != k implies #[trigger] pde(ma3, d, kk) == pde(mb, d, kk) by {
        lemma_frames_disjoint(t, d, j, kk);
        assert(pde(ma3, d, kk) == pde(ma2, d, kk));
    }
    assert forall|q: int| 0 <= q < 1023 * 1024 implies #[trigger] pte_word(ma3, d, q) == pte_word(ma2, d, q) by {
        let kq = q / 1024;
        assert(pde(ma3, d, kq) == pde(ma2, d, kq));
        if entry_present(pde(ma2, d, kq)) {
            let tq = entry_addr(pde(ma2, d, kq));
            assert(tq != dst);
            assert(tq % 4096 == 0);
            lemma_frames_disjoint(dst, tq, 0, q % 1024);
        }
    }
    // Parent words stay.
    assert forall|w: int| 0 <= w < n0 implies #[trigger] ma3[w] == m0[w] by {
        assert(w != d / 4 + k);
        assert(w != t / 4 + j) by {
            if entry_present(pde(mb, d, k)) {
                assert(entry_present(pde(mb, d, k)));
            }
        }
        assert(mb[w] == m0[w]);
    }
    assert(pde(ma3, d, 0) == pde(m0, c, 0)) by {
        lemma_frames_disjoint(t, d, j, 0);
        assert(pde(mb, d, 0) == pde(m0, c, 0));
    }
    assert forall|kk: int| 768 <= kk < 1023 implies #[trigger] pde(ma3, d, kk) == 0 by {
        lemma_frames_disjoint(t, d, j, kk);
        assert(pde(mb, d, kk) == 0);
    }
    assert(recursive(ma3, d)) by {
        lemma_frames_disjoint(t, d, j, 1023);
        assert(pde(ma3, d, 1023) == pde(mb, d, 1023));
    }
    assert forall|kk: int| 1 <= kk < 768 && #[trigger] entry_present(pde(ma3, d, kk))
        implies entry_addr(pde(ma3, d, kk)) / 4 >= n0 + 1024 by {
        if kk != k {
            lemma_frames_disjoint(t, d, j, kk);
            assert(pde(ma2, d, kk) == pde(mb, d, kk));
            assert(entry_present(pde(mb, d, kk)));
        } else if entry_present(pde(mb, d, k)) {
            assert(entry_present(pde(mb, d, k)));
        }
    }
    // The new page is a copy of the parent's.
    assert(sf / 4 + 1024 <= n0);
    assert((dst + entry_flags(src)) % 4096 == entry_flags(src));
    assert(entry_flags(src) % 2 == 1);
    assert(frame(ma3, d, p) == dst);
    assert(page_cloned(m0, c, ma3, d, n0 + 1024, p)) by {
        assert forall|w: int| 0 <= w < 1024 implies #[trigger] ma3[dst / 4 + w] == m0[sf / 4 + w] by {
            assert(ma3[dst / 4 + w] == ma2[sf / 4 + w]);
            assert(mb[sf / 4 + w] == m0[sf / 4 + w]);
            lemma_frames_disjoint(t, d, j, 0);
            assert(sf / 4 + w != d / 4 + k);
            assert(sf / 4 + w != t / 4 + j) by {
                if entry_present(pde(mb, d, k)) {
                    assert(entry_present(pde(mb, d, k)));
                }
            }
        }
    }
    // Earlier pages keep their copies.
    assert forall|q: int| USER_FIRST_PAGE <= q < p + 1 implies #[trigger] page_cloned(m0, c, ma3, d, n0 + 1024, q) by {
        if q < p {
            assert(page_cloned(m0, c, mb, d, n0 + 1024, q));
            assert(pte_word(ma3, d, q) == pte_word(mb, d, q));
            if mapped(m0, c, q) {
                let fq = frame(mb, d, q);
                assert(frame(ma3, d, q) == fq);
                assert(fq % 4096 == 0);
                assert(fq != t) by {
                    if entry_present(pde(mb, d, k)) {
                        assert(mapped(mb, d, q) && entry_present(pde(mb, d, k)));
                    }
                }
                assert forall|w: int| 0 <= w < 1024 implies #[trigger] ma3[fq / 4 + w] == m0[frame(m0, c, q) / 4 + w] by {
                    assert(mb[fq / 4 + w] == m0[frame(m0, c, q) / 4 + w]);
                    lemma_frames_disjoint(fq, d, w, k);
                    lemma_frames_disjoint(fq, t, w, j);
                    assert(!(dst / 4 <= fq / 4 + w < dst / 4 + 1024));
                }
            }
        }
    }
    assert forall|q: int| p + 1 <= q < USER_END_PAGE implies #[trigger] pte_word(ma3, d, q) == 0 by {
        assert(pte_word(mb, d, q) == 0);
    }
    assert forall|q: int, kk: int| USER_FIRST_PAGE <= q < p + 1 && 1 <= kk < 768
        && #[trigger] mapped(ma3, d, q) && #[trigger] entry_present(pde(ma3, d, kk))
        implies frame(ma3, d, q) != entry_addr(pde(ma3, d, kk)) by {
        if q < p {
            assert(pte_word(ma3, d, q) == pte_word(mb, d, q));
            assert(page_cloned(m0, c, mb, d, n0 + 1024, q));
            assert(pde(ma3, d, kk) == pde(ma2, d, kk));
            if kk != k {
                lemma_frames_disjoint(t, d, j, kk);
                assert(pde(ma2, d, kk) == pde(mb, d, kk));
                assert(entry_present(pde(mb, d, kk)));
            } else if entry_present(pde(mb, d, k)) {
                assert(mapped(mb, d, q) && entry_present(pde(mb, d, k)));
            }
        } else {
            assert(pde(ma3, d, kk) == pde(ma2, d, kk));
        }
    }
}

/// One shared kernel slot keeps the loop state of `clone_directory`.
#[verifier::rlimit(60)]
proof fn lemma_kernel_step(m0: Seq<u32>, c: int, mu: Seq<u32>, mk: Seq<u32>, m1: Seq<u32>, m2: Seq<u32>, d: int, k: int)
    requires
        768 <= k < 1023,
        d == m0.len() * 4,
        space_ok(m0, c),
        clone_user_inv(m0, c, mu, d, USER_END_PAGE as int),
        mu.len() <= mk.len(),
        dir_ok(mk, c),
        tables_ok(mk, c),
        forall|w: int| 0 <= w < m0.len() && !(c / 4 + 768 <= w < c / 4 + 1023) ==> #[trigger] mk[w] == m0[w],
        forall|w: int| m0.len() <= w < mu.len() && !(m0.len() + 768 <= w < m0.len() + 1023) ==> #[trigger] mk[w] == mu[w],
        forall|kk: int| 768 <= kk < k ==> {
            &&& #[trigger] pde(mk, d, kk) == pde(mk, c, kk)
            &&& entry_present(pde(mk, c, kk))
        },
        forall|kk: int| k <= kk < 1023 ==> #[trigger] pde(mk, d, kk) == 0,
        forall|kk: int| 768 <= kk < 1023 && #[trigger] entry_present(pde(mk, c, kk))
            ==> entry_addr(pde(mk, c, kk)) / 4 + 1024 <= m0.len() || entry_addr(pde(mk, c, kk)) / 4 >= mu.len(),
        // fetch_table
        entry_present(pde(m1, c, k)),
        entry_present(pde(mk, c, k)) ==> m1 == mk,
        !entry_present(pde(mk, c, k)) ==> {
            &&& m1.len() == mk.len() + 1024
            &&& entry_addr(pde(m1, c, k)) == mk.len() * 4
            &&& forall|w: int| 0 <= w < mk.len() && w != c / 4 + k ==> #[trigger] m1[w] == mk[w]
        },
        // the copy into the child
        m2 == m1.update(d / 4 + k, pde(m1, c, k)),
    ensures
        forall|w: int| 0 <= w < m0.len() && !(c / 4 + 768 <= w < c / 4 + 1023) ==> #[trigger] m2[w] == m0[w],
        forall|w: int| m0.len() <= w < mu.len() && !(m0.len() + 768 <= w < m0.len() + 1023) ==> #[trigger] m2[w] == mu[w],
        forall|kk: int| 768 <= kk < k + 1 ==> {
            &&& #[trigger] pde(m2, d, kk) == pde(m2, c, kk)
            &&& entry_present(pde(m2, c, kk))
        },
        forall|kk: int| k + 1 <= kk < 1023 ==> #[trigger] pde(m2, d, kk) == 0,
        forall|kk: int| 768 <= kk < 1023 && #[trigger] entry_present(pde(m2, c, kk))
            ==> entry_addr(pde(m2, c, kk)) / 4 + 1024 <= m0.len() || entry_addr(pde(m2, c, kk)) / 4 >= mu.len(),
        dir_ok(m2, c),
        tables_ok(m2, c),
        forall|kk: int| 0 <= kk < 1024 ==> #[trigger] pde(m2, c, kk) == pde(m1, c, kk),
{
    let n0 = m0.len() as int;
    assert(d / 4 == n0);
    assert(c / 4 + 1024 <= n0);
    assert forall|kk: int| 0 <= kk < 1024 implies #[trigger] pde(m2, c, kk) == pde(m1, c, kk) by {}
    assert forall|kk: int| 768 <= kk < k + 1 implies {
        &&& #[trigger] pde(m2, d, kk) == pde(m2, c, kk)
        &&& entry_present(pde(m2, c, kk))
    } by {
        if kk < k {
            assert(pde(m1, d, kk) == pde(mk, d, kk));
            assert(pde(m1, c, kk) == pde(mk, c, kk));
        }
    }
    assert forall|kk: int| k + 1 <= kk < 1023 implies #[trigger] pde(m2, d, kk) == 0 by {
        assert(pde(m1, d, kk) == pde(mk, d, kk));
    }
    assert forall|kk: int| 768 <= kk < 1023 && #[trigger] entry_present(pde(m2, c, kk))
        implies entry_addr(pde(m2, c, kk)) / 4 + 1024 <= n0 || entry_addr(pde(m2, c, kk)) / 4 >= mu.len() by {
        if kk != k {
            assert(pde(m1, c, kk) == pde(mk, c, kk));
        } else if entry_present(pde(mk, c, k)) {
        } else {
        }
    }
    assert forall|kk: int| 0 <= kk < 1024 && #[trigger] entry_present(pde(m2, c, kk))
        implies entry_addr(pde(m2, c, kk)) / 4 + 1024 <= m2.len() by {
        if kk != k {
            assert(pde(m1, c, kk) == pde(mk, c, kk));
            assert(entry_present(pde(mk, c, kk)));
        }
    }
}

/// The loops' final states give `clone_directory`'s contract.
#[verifier::rlimit(80)]
proof fn lemma_clone_done(m0: Seq<u32>, c: int, mu: Seq<u32>, m: Seq<u32>, d: int)
    requires
        d == m0.len() * 4,
        space_ok(m0, c),
        clone_user_inv(m0, c, mu, d, USER_END_PAGE as int),
        mu.len() <= m.len(),
        dir_ok(m, c),
        tables_ok(m, c),
        tables_distinct(m, c),
        forall|w: int| 0 <= w < m0.len() && !(c / 4 + 768 <= w < c / 4 + 1023) ==> #[trigger] m[w] == m0[w],
        forall|w: int| m0.len() <= w < mu.len() && !(m0.len() + 768 <= w < m0.len() + 1023) ==> #[trigger] m[w] == mu[w],
        forall|kk: int| 768 <= kk < 1023 ==> {
            &&& #[trigger] pde(m, d, kk) == pde(m, c, kk)
            &&& entry_present(pde(m, c, kk))
        },
        forall|kk: int| 768 <= kk < 1023 && #[trigger] entry_present(pde(m, c, kk))
            ==> entry_addr(pde(m, c, kk)) / 4 + 1024 <= m0.len() || entry_addr(pde(m, c, kk)) / 4 >= mu.len(),
    ensures
        space_ok(m, c),
        space_ok(m, d),
        pde(m, d, 0) == pde(m0, c, 0),
        forall|q: int| USER_FIRST_PAGE <= q < USER_END_PAGE
            ==> #[trigger] page_cloned(m0, c, m, d, m0.len() as int + 1024, q),
        forall|q: int| 0 <= q < KERNEL_SLOT * 1024 ==> #[trigger] pte_word(m, c, q) == pte_word(m0, c, q),
        forall|k: int| 1 <= k < 768 && #[trigger] entry_present(pde(m, d, k))
            ==> entry_addr(pde(m, d, k)) / 4 >= m0.len() + 1024,
        forall|k: int| 0 <= k < 768 ==> #[trigger] pde(m, c, k) == pde(m0, c, k),
{
    let n0 = m0.len() as int;
    assert(d / 4 == n0);
    assert(c / 4 + 1024 <= n0);
    // Parent: everything below the kernel slots and the recursive slot stays.
    assert forall|kk: int| (0 <= kk < 768 || kk == 1023) implies #[trigger] pde(m, c, kk) == pde(m0, c, kk) by {}
    assert forall|q: int| 0 <= q < KERNEL_SLOT * 1024 implies #[trigger] pte_word(m, c, q) == pte_word(m0, c, q) by {
        let kq = q / 1024;
        assert(pde(m, c, kq) == pde(m0, c, kq));
        if entry_present(pde(m0, c, kq)) {
            assert(entry_present(pde(m0, c, kq)));
            let t = entry_addr(pde(m0, c, kq));
            assert(t != c);
            lemma_frames_disjoint(t, c, q % 1024, 768);
            lemma_frames_disjoint(t, c, q % 1024, 1022);
            assert(t / 4 + 1024 <= n0);
            assert(!(c / 4 + 768 <= t / 4 + q % 1024 < c / 4 + 1023)) by {
                if c < t {} else {}
            }
        }
    }
    assert(recursive(m, c)) by { assert(pde(m, c, 1023) == pde(m0, c, 1023)); }
    assert(frames_ok(m, c)) by {
        assert forall|p: int| USER_FIRST_PAGE <= p < USER_END_PAGE && #[trigger] mapped(m, c, p)
            implies frame(m, c, p) / 4 + 1024 <= m.len() by {
            assert(pte_word(m, c, p) == pte_word(m0, c, p));
            assert(mapped(m0, c, p));
        }
    }
    // Child: user slots and their tables stay as the first loop left them.
    assert forall|kk: int| (0 <= kk < 768 || kk == 1023) implies #[trigger] pde(m, d, kk) == pde(mu, d, kk) by {}
    assert forall|q: int| USER_FIRST_PAGE <= q < USER_END_PAGE implies #[trigger] pte_word(m, d, q) == pte_word(mu, d, q) by {
        let kq = q / 1024;
        assert(pde(m, d, kq) == pde(mu, d, kq));
        if entry_present(pde(mu, d, kq)) {
            let t = entry_addr(pde(mu, d, kq));
            assert(t / 4 >= n0 + 1024);
            assert(t / 4 + 1024 <= mu.len());
        }
    }
    assert forall|q: int| USER_FIRST_PAGE <= q < USER_END_PAGE
        implies #[trigger] page_cloned(m0, c, m, d, m0.len() as int + 1024, q) by {
        assert(page_cloned(m0, c, mu, d, n0 + 1024, q));
        if mapped(m0, c, q) {
            let f = frame(mu, d, q);
            assert forall|w: int| 0 <= w < 1024 implies #[trigger] m[f / 4 + w] == m0[frame(m0, c, q) / 4 + w] by {
                assert(mu[f / 4 + w] == m0[frame(m0, c, q) / 4 + w]);
            }
        }
    }
    assert(pde(m, d, 0) == pde(m0, c, 0));
    assert(recursive(m, d)) by { assert(pde(m, d, 1023) == pde(mu, d, 1023)); }
    assert(tables_ok(m, d)) by {
        assert forall|kk: int| 0 <= kk < 1024 && #[trigger] entry_present(pde(m, d, kk))
            implies entry_addr(pde(m, d, kk)) / 4 + 1024 <= m.len() by {
            if kk < 768 || kk == 1023 {
                assert(entry_present(pde(mu, d, kk)));
            } else {
                assert(entry_present(pde(m, c, kk)));
            }
        }
    }
    assert(tables_distinct(m, d)) by {
        assert forall|k1: int, k2: int|
            0 <= k1 < 1023 && 0 <= k2 < 1023 && k1 != k2
            && #[trigger] entry_present(pde(m, d, k1)) && #[trigger] entry_present(pde(m, d, k2))
            implies entry_addr(pde(m, d, k1)) != entry_addr(pde(m, d, k2)) by {
            let a1 = entry_addr(pde(m, d, k1));
            let a2 = entry_addr(pde(m, d, k2));
            if k1 < 768 && k2 < 768 {
                assert(entry_present(pde(mu, d, k1)) && entry_present(pde(mu, d, k2)));
            } else if k1 >= 768 && k2 >= 768 {
                assert(entry_present(pde(m, c, k1)) && entry_present(pde(m, c, k2)));
            } else if k1 < 768 {
                assert(entry_present(pde(mu, d, k1)));
                assert(entry_present(pde(m, c, k2)));
                if k1 == 0 {
                    assert(entry_present(pde(m0, c, 0)));
                    assert(pde(m, c, 0) == pde(m0, c, 0));
                    assert(entry_present(pde(m, c, 0)));
                } else {
                    assert(a1 / 4 >= n0 + 1024);
                    assert(a1 / 4 + 1024 <= mu.len());
                }
            } else {
                assert(entry_present(pde(mu, d, k2)));
                assert(entry_present(pde(m, c, k1)));
                if k2 == 0 {
                    assert(entry_present(pde(m0, c, 0)));
                    assert(pde(m, c, 0) == pde(m0, c, 0));
                    assert(entry_present(pde(m, c, 0)));
                } else {
                    assert(a2 / 4 >= n0 + 1024);
                    assert(a2 / 4 + 1024 <= mu.len());
                }
            }
        }
        assert forall|kk: int| 0 <= kk < 1023 && #[trigger] entry_present(pde(m, d, kk))
            implies entry_addr(pde(m, d, kk)) != d by {
            if kk == 0 {
                assert(entry_present(pde(m0, c, 0)));
            } else if kk < 768 {
                assert(entry_present(pde(mu, d, kk)));
            } else {
                assert(entry_present(pde(m, c, kk)));
            }
        }
    }
    assert(frames_ok(m, d)) by {
        assert forall|p: int| USER_FIRST_PAGE <= p < USER_END_PAGE && #[trigger] mapped(m, d, p)
            implies frame(m, d, p) / 4 + 1024 <= m.len() by {
            assert(page_cloned(m0, c, m, d, n0 + 1024, p));
        }
    }
    assert forall|k: int| 1 <= k < 768 && #[trigger] entry_present(pde(m, d, k))
        implies entry_addr(pde(m, d, k)) / 4 >= m0.len() + 1024 by {
        assert(entry_present(pde(mu, d, k)));
    }
}

/// Duplicates the address space of `cur` for a child:
/// a fresh directory whose first slot is shared with `cur` (the identity
/// map), whose user pages in `[4 MiB, 3 GiB)` are copied eagerly into fresh
/// frames with the same flags, and whose kernel slots below the recursive
/// one are the very entries of `cur` (tables created in `cur` first where
/// absent), so kernel mappings stay shared. `cur`'s user view is untouched.
pub fn clone_directory(mem: &mut PhysMem, cur: u32) -> (d: u32)
    requires
        old(mem).wf(),
        space_ok(old(mem)@, cur as int),
        old(mem)@.len() + CLONE_WORDS <= MAX_WORDS,
    ensures
        final(mem).wf(),
        d as int == old(mem)@.len() * 4,
        space_ok(final(mem)@, cur as int),
        space_ok(final(mem)@, d as int),
        pde(final(mem)@, d as int, 0) == pde(old(mem)@, cur as int, 0),
        forall|k: int| KERNEL_SLOT <= k < 1023 ==> {
            &&& #[trigger] pde(final(mem)@, d as int, k) == pde(final(mem)@, cur as int, k)
            &&& entry_present(pde(final(mem)@, cur as int, k))
        },
        forall|q: int| USER_FIRST_PAGE <= q < USER_END_PAGE
            ==> #[trigger] page_cloned(old(mem)@, cur as int, final(mem)@, d as int, old(mem)@.len() as int + 1024, q),
        forall|q: int| 0 <= q < KERNEL_SLOT * 1024
            ==> #[trigger] pte_word(final(mem)@, cur as int, q) == pte_word(old(mem)@, cur as int, q),
        forall|k: int| 1 <= k < KERNEL_SLOT && #[trigger] entry_present(pde(final(mem)@, d as int, k))
            ==> entry_addr(pde(final(mem)@, d as int, k)) / 4 >= old(mem)@.len() + 1024,
        forall|k: int| 0 <= k < KERNEL_SLOT ==> #[trigger] pde(final(mem)@, cur as int, k) == pde(old(mem)@, cur as int, k),
{
    let ghost m0 = mem@;
    let ghost n0 = m0.len() as int;
    let ghost c = cur as int;
    let d = new_directory(mem);
    let ghost md = mem@;
    let e0 = mem.read(cur);
    mem.write(d, e0);
    proof {
        let m = mem@;
        assert(pde(m, d as int, 0) == pde(m0, c, 0)) by {
            assert(md[c / 4] == m0[c / 4]);
        }
        assert forall|k: int| 1 <= k < 1024 implies #[trigger] pde(m, d as int, k) == pde(md, d as int, k) by {}
        assert forall|q: int| USER_FIRST_PAGE <= q < USER_END_PAGE implies #[trigger] pte_word(m, d as int, q) == 0 by {
            assert(pde(md, d as int, q / 1024) == 0);
        }
        assert forall|k: int| 768 <= k < 1023 implies #[trigger] pde(m, d as int, k) == 0 by {
            assert(pde(md, d as int, k) == 0);
        }
        assert forall|k: int| 1 < k < 768 implies !#[trigger] entry_present(pde(m, d as int, k)) by {
            assert(pde(md, d as int, k) == 0);
        }
        assert(!entry_present(pde(m, d as int, 1))) by {
            assert(pde(md, d as int, 1) == 0);
        }
        assert forall|k: int| 0 <= k < 1024 && #[trigger] entry_present(pde(m, d as int, k))
            implies entry_addr(pde(m, d as int, k)) / 4 + 1024 <= m.len() by {
            if k == 0 {
                assert(entry_present(pde(m0, c, 0)));
            }
        }
        assert(tables_distinct(m, d as int)) by {
            assert forall|k: int| 1 <= k < 1023 implies !#[trigger] entry_present(pde(m, d as int, k)) by {
                assert(pde(md, d as int, k) == 0);
            }
            if entry_present(pde(m0, c, 0)) {
                assert(entry_present(pde(m0, c, 0)));
            }
        }
    }
    let ghost mut data: int = 0;
    let ghost mut tabs: int = 0;
    let mut p: u32 = USER_FIRST_PAGE;
    while p < USER_END_PAGE
        invariant
            mem.wf(),
            m0.len() + CLONE_WORDS <= MAX_WORDS,
            n0 == m0.len(),
            c == cur as int,
            space_ok(m0, c),
            clone_user_inv(m0, c, mem@, d as int, p as int),
            mem@.len() == n0 + 1024 + 1024 * data + 1024 * tabs,
            0 <= data <= p - USER_FIRST_PAGE,
            0 <= tabs <= p / 1024 - 1 + (if entry_present(pde(mem@, d as int, p as int / 1024)) { 1int } else { 0int }),
            forall|k: int| p / 1024 < k < 768 ==> !#[trigger] entry_present(pde(mem@, d as int, k)),
        decreases USER_END_PAGE - p,
    {
        let va = p * 4096;
        let ghost mb = mem@;
        proof { lemma_grow_keeps(m0, mb, c); }
        let src = get_page(mem, cur, va);
        assert(va as int / 4096 == p);
        if page_present(src) {
            proof {
                assert(mapped(m0, c, p as int));
                assert(frame(m0, c, p as int) / 4 + 1024 <= n0);
            }
            let dst = mem.allocate_frame();
            let ghost ma1 = mem@;
            proof { lemma_grow_keeps(mb, ma1, d as int); }
            let fl = page_flags(src);
            set_page(mem, d, va, dst, fl);
            let ghost ma2 = mem@;
            let ghost t = entry_addr(pde(ma2, d as int, p as int / 1024));
            proof {
                assert forall|q: int| 0 <= q < 1023 * 1024 && q != p as int
                    implies #[trigger] pte_word(ma2, d as int, q) == pte_word(mb, d as int, q) by {
                    assert(pte_word(ma1, d as int, q) == pte_word(mb, d as int, q));
                }
                assert(pde(ma1, d as int, p as int / 1024) == pde(mb, d as int, p as int / 1024));
                assert forall|w: int| 0 <= w < mb.len() && w != d as int / 4 + p as int / 1024 && w != t / 4 + p as int % 1024
                    implies #[trigger] ma2[w] == mb[w] by {
                    assert(ma1[w] == mb[w]);
                }
            }
            let sa = page_addr(src);
            mem.copy_page(sa, dst);
            proof {
                lemma_clone_step(m0, c, mb, ma2, mem@, d as int, p as int, dst as int, src, t);
                if !entry_present(pde(mb, d as int, p as int / 1024)) {
                    tabs = tabs + 1;
                }
                data = data + 1;
            }
        } else {
            proof {
                assert(!mapped(m0, c, p as int));
                assert(page_cloned(m0, c, mb, d as int, n0 + 1024, p as int)) by {
                    assert(pte_word(mb, d as int, p as int) == 0);
                }
            }
        }
        p = p + 1;
    }
    let ghost mu = mem@;
    proof {
        assert(mu.len() <= n0 + 1024 * 786176) by {
            assert(!entry_present(pde(mu, d as int, 768)));
        }
        lemma_grow_keeps(m0, mu, c);
        assert forall|kk: int| 768 <= kk < 1023 && #[trigger] entry_present(pde(mu, c, kk))
            implies entry_addr(pde(mu, c, kk)) / 4 + 1024 <= n0 by {
            assert(entry_present(pde(m0, c, kk)));
        }
    }
    let mut k: u32 = KERNEL_SLOT;
    while k < 1023
        invariant
            mem.wf(),
            768 <= k <= 1023,
            n0 == m0.len(),
            c == cur as int,
            d as int == n0 * 4,
            space_ok(m0, c),
            clone_user_inv(m0, c, mu, d as int, USER_END_PAGE as int),
            mu.len() <= mem@.len() <= mu.len() + 1024 * (k - 768),
            mu.len() + 1024 * 255 <= MAX_WORDS,
            dir_ok(mem@, c),
            tables_ok(mem@, c),
            tables_distinct(mem@, c),
            forall|w: int| 0 <= w < n0 && !(c / 4 + 768 <= w < c / 4 + 1023) ==> #[trigger] mem@[w] == m0[w],
            forall|w: int| n0 <= w < mu.len() && !(n0 + 768 <= w < n0 + 1023) ==> #[trigger] mem@[w] == mu[w],
            forall|kk: int| 768 <= kk < k ==> {
                &&& #[trigger] pde(mem@, d as int, kk) == pde(mem@, c, kk)
                &&& entry_present(pde(mem@, c, kk))
            },
            forall|kk: int| k <= kk < 1023 ==> #[trigger] pde(mem@, d as int, kk) == 0,
            forall|kk: int| 768 <= kk < 1023 && #[trigger] entry_present(pde(mem@, c, kk))
                ==> entry_addr(pde(mem@, c, kk)) / 4 + 1024 <= n0 || entry_addr(pde(mem@, c, kk)) / 4 >= mu.len(),
        decreases 1023 - k,
    {
        let ghost mk = mem@;
        let va = k * 0x400000;
        assert(crate::pte::dir_idx(va as int) == k);
        let f = PRESENT | WRITE;
        assert(f == 3) by (bit_vector) requires f == 1u32 | 2u32;
        fetch_table(mem, cur, va, f);
        let ghost m1 = mem@;
        let e = mem.read(cur + 4 * k);
        mem.write(d + 4 * k, e);
        proof {
            lemma_kernel_step(m0, c, mu, mk, m1, mem@, d as int, k as int);
        }
        k = k + 1;
    }
    proof {
        lemma_clone_done(m0, c, mu, mem@, d as int);
    }
    d
}

/// What `clone_directory` establishes between the parent `c` before the
/// call and the child `d` after it.
pub open spec fn clone_of(m0: Seq<u32>, c: int, m: Seq<u32>, d: int) -> bool {
    &&& d == m0.len() * 4
    &&& m0.len() <= m.len()
    &&& space_ok(m0, c)
    &&& space_ok(m, c)
    &&& space_ok(m, d)
    &&& (forall|k: int| KERNEL_SLOT <= k < 1023 ==> {
        &&& #[trigger] pde(m, d, k) == pde(m, c, k)
        &&& entry_present(pde(m, c, k))
    })
    &&& (forall|q: int| USER_FIRST_PAGE <= q < USER_END_PAGE
        ==> #[trigger] page_cloned(m0, c, m, d, m0.len() as int + 1024, q))
    &&& (forall|q: int| 0 <= q < KERNEL_SLOT * 1024 ==> #[trigger] pte_word(m, c, q) == pte_word(m0, c, q))
    &&& (forall|k: int| 1 <= k < KERNEL_SLOT && #[trigger] entry_present(pde(m, d, k))
        ==> entry_addr(pde(m, d, k)) / 4 >= m0.len() + 1024)
    &&& (forall|k: int| 0 <= k < KERNEL_SLOT ==> #[trigger] pde(m, c, k) == pde(m0, c, k))
}

/// The recursive map holds for a cloned directory: the word at
/// `DIRECTORY + 4 * i` of the child's address space is the child's
/// directory entry `i`, and the parent's last entry still maps the parent.
pub proof fn lemma_clone_window(m0: Seq<u32>, c: int, m: Seq<u32>, d: int, i: int)
    requires
        clone_of(m0, c, m, d),
        0 <= i < 1024,
    ensures
        read_virt(m, d, crate::paging::DIRECTORY + 4 * i) == Some(m[d / 4 + i]),
        read_virt(m, c, crate::paging::DIRECTORY + 4 * i) == Some(m[c / 4 + i]),
        m[d / 4 + 1023] as int == d + 3,
        m[c / 4 + 1023] as int == c + 3,
{
    crate::paging::lemma_recursive_window(m, d, i);
    crate::paging::lemma_recursive_window(m, c, i);
}

/// A user address of the address space in `m`: its translation reads
/// only words at or above `lo` (directory entry, table entry, data).
pub open spec fn user_path_above(m: Seq<u32>, dir: int, va: int, lo: int) -> bool {
    &&& dir / 4 >= lo
    &&& entry_present(pde(m, dir, va / 4096 / 1024)) ==> entry_addr(pde(m, dir, va / 4096 / 1024)) / 4 >= lo
    &&& mapped(m, dir, va / 4096) ==> frame(m, dir, va / 4096) / 4 >= lo
}

/// A user address of the address space in `m` whose translation reads only
/// words below `hi`.
pub open spec fn user_path_below(m: Seq<u32>, dir: int, va: int, hi: int) -> bool {
    &&& dir / 4 + 1024 <= hi
    &&& entry_present(pde(m, dir, va / 4096 / 1024)) ==> entry_addr(pde(m, dir, va / 4096 / 1024)) / 4 + 1024 <= hi
    &&& mapped(m, dir, va / 4096) ==> frame(m, dir, va / 4096) / 4 + 1024 <= hi
}

proof fn lemma_read_virt_unchanged(m: Seq<u32>, dir: int, va: int, w: int, v: u32)
    requires
        0 <= w < m.len(),
        dir_ok(m, dir),
        tables_ok(m, dir),
        va < 0x1_0000_0000,
        0 <= va,
        va % 4 == 0,
        w != dir / 4 + va / 4096 / 1024,
        entry_present(pde(m, dir, va / 4096 / 1024))
            ==> w != entry_addr(pde(m, dir, va / 4096 / 1024)) / 4 + (va / 4096) % 1024,
        mapped(m, dir, va / 4096) ==> w != (frame(m, dir, va / 4096) + va % 4096) / 4,
    ensures
        read_virt(m.update(w, v), dir, va) == read_virt(m, dir, va),
{
    let m2 = m.update(w, v);
    let k = va / 4096 / 1024;
    assert(0 <= k < 1024);
    assert(pde(m2, dir, k) == pde(m, dir, k));
    if entry_present(pde(m, dir, k)) {
        assert(entry_present(pde(m, dir, k)));
    }
    assert(pte_word(m2, dir, va / 4096) == pte_word(m, dir, va / 4096));
}

/// Address-space isolation: after `clone_directory`, storing a word through
/// a user address of the parent changes nothing that the child sees at any
/// user address.
pub proof fn lemma_clone_isolation(m0: Seq<u32>, c: int, m: Seq<u32>, d: int, va: int, va2: int, v: u32)
    requires
        clone_of(m0, c, m, d),
        USER_FIRST_PAGE * 4096 <= va < USER_END_PAGE * 4096,
        USER_FIRST_PAGE * 4096 <= va2 < USER_END_PAGE * 4096,
        va2 % 4 == 0,
        mapped(m, c, va / 4096),
    ensures
        read_virt(m.update((frame(m, c, va / 4096) + va % 4096) / 4, v), d, va2) == read_virt(m, d, va2),
{
    let n0 = m0.len() as int;
    let q = va / 4096;
    let q2 = va2 / 4096;
    let k2 = q2 / 1024;
    assert(USER_FIRST_PAGE <= q < USER_END_PAGE);
    assert(USER_FIRST_PAGE <= q2 < USER_END_PAGE);
    assert(1 <= k2 < 768);
    assert(pte_word(m, c, q) == pte_word(m0, c, q));
    assert(mapped(m0, c, q));
    let pa = frame(m, c, q) + va % 4096;
    assert(pa / 4 < n0);
    assert(page_cloned(m0, c, m, d, n0 + 1024, q2));
    if entry_present(pde(m, d, k2)) {
        assert(entry_present(pde(m, d, k2)));
    }
    lemma_read_virt_unchanged(m, d, va2, pa / 4, v);
}

/// The same isolation the other way: storing a word through a user address
/// of the child changes nothing that the parent sees at any user address.
pub proof fn lemma_clone_isolation_child(m0: Seq<u32>, c: int, m: Seq<u32>, d: int, va: int, va2: int, v: u32)
    requires
        clone_of(m0, c, m, d),
        USER_FIRST_PAGE * 4096 <= va < USER_END_PAGE * 4096,
        USER_FIRST_PAGE * 4096 <= va2 < USER_END_PAGE * 4096,
        va2 % 4 == 0,
        mapped(m, d, va / 4096),
    ensures
        read_virt(m.update((frame(m, d, va / 4096) + va % 4096) / 4, v), c, va2) == read_virt(m, c, va2),
{
    let n0 = m0.len() as int;
    let q = va / 4096;
    let q2 = va2 / 4096;
    let k2 = q2 / 1024;
    assert(USER_FIRST_PAGE <= q < USER_END_PAGE);
    assert(USER_FIRST_PAGE <= q2 < USER_END_PAGE);
    assert(1 <= k2 < 768);
    assert(c / 4 + 1024 <= n0);
    assert(page_cloned(m0, c, m, d, n0 + 1024, q));
    let pa = frame(m, d, q) + va % 4096;
    assert(pa / 4 >= n0 + 1024);
    assert(pa / 4 < m.len());
    assert(pde(m, c, k2) == pde(m0, c, k2));
    assert(pte_word(m, c, q2) == pte_word(m0, c, q2));
    if entry_present(pde(m0, c, k2)) {
        assert(entry_present(pde(m0, c, k2)));
    }
    if mapped(m0, c, q2) {
        assert(mapped(m0, c, q2));
    }
    lemma_read_virt_unchanged(m, c, va2, pa / 4, v);
}

/// Kernel-space sharing: after `clone_directory`, and for as long as the
/// two directories' kernel entries are those it left, every kernel address
/// below the recursive window reads the same in parent and child, so a
/// store the parent makes there is seen by the child at once.
pub proof fn lemma_kernel_shared(m: Seq<u32>, c: int, d: int, va: int)
    requires
        forall|k: int| KERNEL_SLOT <= k < 1023 ==> #[trigger] pde(m, d, k) == pde(m, c, k),
        KERNEL_SLOT * 0x400000 <= va < 1023 * 0x400000,
    ensures
        translate(m, d, va) == translate(m, c, va),
        read_virt(m, d, va) == read_virt(m, c, va),
{
    assert(pde(m, d, va / 4096 / 1024) == pde(m, c, va / 4096 / 1024));
}

/// The sharing in action: where parent and child have the same kernel
/// directory entries, a word the parent stores through a mapped kernel
/// address (not into either directory, nor into the table entry that maps
/// that address) is what the child then reads there.
pub proof fn lemma_kernel_store_seen(m: Seq<u32>, c: int, d: int, va: int, v: u32)
    requires
        dir_ok(m, c),
        dir_ok(m, d),
        tables_ok(m, c),
        forall|k: int| KERNEL_SLOT <= k < 1023 ==> #[trigger] pde(m, d, k) == pde(m, c, k),
        KERNEL_SLOT * 0x400000 <= va < 1023 * 0x400000,
        va % 4 == 0,
        mapped(m, c, va / 4096),
        (frame(m, c, va / 4096) + va % 4096) / 4 < m.len(),
        ({
            let w = (frame(m, c, va / 4096) + va % 4096) / 4;
            let k = va / 4096 / 1024;
            &&& !(c / 4 <= w < c / 4 + 1024)
            &&& !(d / 4 <= w < d / 4 + 1024)
            &&& w != entry_addr(pde(m, c, k)) / 4 + (va / 4096) % 1024
        }),
    ensures
        ({
            let m2 = m.update((frame(m, c, va / 4096) + va % 4096) / 4, v);
            &&& read_virt(m2, c, va) == Some(v)
            &&& read_virt(m2, d, va) == Some(v)
        }),
{
    let w = (frame(m, c, va / 4096) + va % 4096) / 4;
    let m2 = m.update(w, v);
    let k = va / 4096 / 1024;
    assert(768 <= k < 1023);
    assert(pde(m2, c, k) == pde(m, c, k));
    assert(pde(m2, d, k) == pde(m, d, k));
    assert(entry_present(pde(m, c, k)));
    assert(pte_word(m2, c, va / 4096) == pte_word(m, c, va / 4096));
    assert(pte_word(m2, d, va / 4096) == pte_word(m, d, va / 4096));
}

} // verus!
