//! Radiance adaptive run-length coding of one component plane.

use vstd::prelude::*;

verus! {

/// Longest run that one count byte can introduce.
pub const MAX_RUN: usize = 127;

/// Longest stretch of literal bytes that one count byte can introduce.
pub const MAX_LITERAL: usize = 128;

/// Shortest run that is worth coding as a run.
pub const MIN_RUN: usize = 4;

/// How far the run that starts `d` extends beyond its first `n` bytes,
/// capped at the longest run.
pub open spec fn run_length(d: Seq<u8>, n: int) -> int
    decreases d.len() - n,
{
    if 0 <= n < d.len() && n < MAX_RUN && d[n] == d[0] {
        run_length(d, n + 1)
    } else {
        n
    }
}

/// Whether a run long enough to be coded as one starts at `j`.
pub open spec fn starts_run(d: Seq<u8>, j: int) -> bool {
    &&& 0 <= j
    &&& j + 3 < d.len()
    &&& d[j] == d[j + 1]
    &&& d[j] == d[j + 2]
    &&& d[j] == d[j + 3]
}

/// The first position from `j` on where literals stop: a run starts there, the
/// data end, or the cap is reached.
pub open spec fn literal_length(d: Seq<u8>, j: int) -> int
    decreases d.len() - j,
{
    if 0 <= j < d.len() && j < MAX_LITERAL && !starts_run(d, j) {
        literal_length(d, j + 1)
    } else {
        j
    }
}

/// The coded form of a plane: runs as a count byte above 128 and the repeated
/// byte, everything between runs as a count byte of at most 128 and that many
/// literal bytes.
pub open spec fn rle(d: Seq<u8>) -> Seq<u8>
    decreases d.len(),
    via rle_decreases
{
    if d.len() == 0 {
        Seq::empty()
    } else {
        let run = run_length(d, 1);
        if run >= MIN_RUN {
            seq![(128 + run) as u8, d[0]] + rle(d.skip(run))
        } else {
            let n = literal_length(d, 1);
            seq![n as u8] + d.take(n) + rle(d.skip(n))
        }
    }
}

#[via_fn]
proof fn rle_decreases(d: Seq<u8>) {
    if d.len() > 0 {
        lemma_run_length(d, 1);
        lemma_literal_length(d, 1);
    }
}

/// What a reader makes of coded bytes when it wants `n` component bytes: these
/// bytes and the input that follows them, or nothing where the code is broken
/// off, overshoots, or holds an empty literal block.
pub open spec fn read_component(s: Seq<u8>, n: nat) -> Option<(Seq<u8>, Seq<u8>)>
    decreases n,
{
    if n == 0 {
        Some((Seq::empty(), s))
    } else if s.len() == 0 || s[0] == 0 {
        None
    } else if s[0] > 128 {
        let run = (s[0] - 128) as nat;
        if run > n || s.len() < 2 {
            None
        } else {
            match read_component(s.skip(2), (n - run) as nat) {
                Some((d, rest)) => Some((Seq::new(run, |i: int| s[1]) + d, rest)),
                None => None,
            }
        }
    } else {
        let count = s[0] as nat;
        if count > n || s.len() < 1 + count {
            None
        } else {
            match read_component(s.skip(1 + count as int), (n - count) as nat) {
                Some((d, rest)) => Some((s.subrange(1, 1 + count as int) + d, rest)),
                None => None,
            }
        }
    }
}

/// A run is at least as long as the part already seen, stays within the data
/// and the cap, and repeats its first byte.
proof fn lemma_run_length(d: Seq<u8>, n: int)
    requires
        1 <= n <= d.len(),
        n <= MAX_RUN,
        forall|i: int| 0 <= i < n ==> #[trigger] d[i] == d[0],
    ensures
        n <= run_length(d, n) <= d.len(),
        run_length(d, n) <= MAX_RUN,
        forall|i: int| 0 <= i < run_length(d, n) ==> #[trigger] d[i] == d[0],
    decreases d.len() - n,
{
    if n < d.len() && n < MAX_RUN && d[n] == d[0] {
        lemma_run_length(d, n + 1);
    }
}

/// Literals stop no earlier than asked, and within the data and the cap.
proof fn lemma_literal_length(d: Seq<u8>, j: int)
    requires
        0 <= j <= d.len(),
        j <= MAX_LITERAL,
    ensures
        j <= literal_length(d, j) <= d.len(),
        literal_length(d, j) <= MAX_LITERAL,
    decreases d.len() - j,
{
    if j < d.len() && j < MAX_LITERAL && !starts_run(d, j) {
        lemma_literal_length(d, j + 1);
    }
}

/// Reading back a coded plane gives the plane, whatever follows it.
pub proof fn law_rle_round_trips(d: Seq<u8>, rest: Seq<u8>)
    ensures
        read_component(rle(d) + rest, d.len()) == Some((d, rest)),
    decreases d.len(),
{
    let s = rle(d) + rest;
    if d.len() == 0 {
        assert(s =~= rest);
        assert(d =~= Seq::empty());
    } else {
        let run = run_length(d, 1);
        lemma_run_length(d, 1);
        if run >= MIN_RUN {
            law_rle_round_trips(d.skip(run), rest);
            assert(s.skip(2) =~= rle(d.skip(run)) + rest);
            assert(Seq::new(run as nat, |i: int| s[1]) + d.skip(run) =~= d);
        } else {
            let n = literal_length(d, 1);
            lemma_literal_length(d, 1);
            law_rle_round_trips(d.skip(n), rest);
            assert(s.skip(1 + n) =~= rle(d.skip(n)) + rest);
            assert(s.subrange(1, 1 + n) =~= d.take(n));
            assert(d.take(n) + d.skip(n) =~= d);
        }
    }
}

/// Where a run starts, that run is long enough to be coded as one.
proof fn lemma_starts_run(d: Seq<u8>, j: int)
    requires
        starts_run(d, j),
    ensures
        run_length(d.skip(j), 1) >= MIN_RUN,
{
    let t = d.skip(j);
    assert(t[0] == d[j] && t[1] == d[j + 1] && t[2] == d[j + 2] && t[3] == d[j + 3]);
    assert(run_length(t, 1) == run_length(t, 2));
    assert(run_length(t, 2) == run_length(t, 3));
    assert(run_length(t, 3) == run_length(t, 4));
    lemma_run_length(t, 4);
}

/// Literals stop short of the data and the cap only where a run starts.
proof fn lemma_literals_stop(d: Seq<u8>, j: int)
    requires
        0 <= j <= d.len(),
        j <= MAX_LITERAL,
    ensures
        ({
            let n = literal_length(d, j);
            n == d.len() || n == MAX_LITERAL || starts_run(d, n)
        }),
    decreases d.len() - j,
{
    if j < d.len() && j < MAX_LITERAL && !starts_run(d, j) {
        lemma_literals_stop(d, j + 1);
    }
}

/// Coding costs at most one byte for every 128 bytes of data begun, however
/// badly the data suit it.
pub proof fn law_rle_overhead(d: Seq<u8>)
    ensures
        rle(d).len() <= d.len() + (d.len() + 127) / 128,
    decreases d.len(),
{
    if d.len() > 0 {
        let run = run_length(d, 1);
        lemma_run_length(d, 1);
        if run >= MIN_RUN {
            law_rle_overhead(d.skip(run));
            assert(rle(d).len() == 2 + rle(d.skip(run)).len());
        } else {
            let n = literal_length(d, 1);
            let t = d.skip(n);
            lemma_literal_length(d, 1);
            lemma_literals_stop(d, 1);
            assert(rle(d).len() == 1 + n + rle(t).len());
            if n == d.len() || n == MAX_LITERAL {
                law_rle_overhead(t);
            } else {
                lemma_starts_run(d, n);
                lemma_run_length(t, 1);
                let next = run_length(t, 1);
                law_rle_overhead(t.skip(next));
                assert(rle(t).len() == 2 + rle(t.skip(next)).len());
            }
        }
    }
}

/// Append the coded form of one component plane.
///
/// A count byte above 128 introduces a run of `count - 128` copies of the next
/// byte; a count byte of at most 128 introduces that many literal bytes.
pub fn encode_component(out: &mut Vec<u8>, data: &[u8])
    ensures
        final(out)@ == old(out)@ + rle(data@),
{
    let n: usize = data.len();
    let mut i: usize = 0;
    let ghost start_out = out@;
    proof {
        assert(data@.skip(0) =~= data@);
    }
    while i < n
        invariant
            n == data@.len(),
            i <= n,
            out@ + rle(data@.skip(i as int)) == start_out + rle(data@),
        decreases n - i,
    {
        let ghost d = data@.skip(i as int);
        let ghost before = out@;
        let mut run: usize = 1;
        while run < n - i && run < MAX_RUN && data[i + run] == data[i]
            invariant
                n == data@.len(),
                i < n,
                d == data@.skip(i as int),
                1 <= run <= n - i,
                run <= MAX_RUN,
                run_length(d, run as int) == run_length(d, 1),
                forall|k: int| 0 <= k < run ==> #[trigger] d[k] == d[0],
            decreases n - run,
        {
            run = run + 1;
        }
        if run >= MIN_RUN {
            out.push(128 + run as u8);
            out.push(data[i]);
            proof {
                assert(d.skip(run as int) =~= data@.skip(i + run));
                assert(out@ + rle(data@.skip(i + run)) =~= before + rle(d));
            }
            i = i + run;
        } else {
            let start: usize = i;
            let mut j: usize = i;
            while j < n && j - start < MAX_LITERAL && !(n - j > 3 && data[j] == data[j + 1] && data[j]
                == data[j + 2] && data[j] == data[j + 3])
                invariant
                    n == data@.len(),
                    start < n,
                    start <= j <= n,
                    j - start <= MAX_LITERAL,
                    d == data@.skip(start as int),
                    literal_length(d, j - start) == literal_length(d, 0),
                decreases n - j,
            {
                j = j + 1;
            }
            proof {
                lemma_run_length(d, 1);
                if starts_run(d, 0) {
                    reveal_with_fuel(run_length, 4);
                }
                assert(literal_length(d, 0) == literal_length(d, 1));
                lemma_literal_length(d, 1);
            }
            out.push((j - start) as u8);
            let mut k: usize = start;
            while k < j
                invariant
                    n == data@.len(),
                    start <= k <= j <= n,
                    out@ == before + seq![(j - start) as u8] + data@.subrange(start as int, k as int),
                decreases j - k,
            {
                out.push(data[k]);
                k = k + 1;
            }
            proof {
                assert(data@.subrange(start as int, j as int) =~= d.take(j - start));
                assert(d.skip(j - start) =~= data@.skip(j as int));
                assert(out@ + rle(data@.skip(j as int)) =~= before + rle(d));
            }
            i = j;
        }
    }
    proof {
        assert(data@.skip(n as int) =~= Seq::empty());
        assert(out@ + Seq::<u8>::empty() =~= out@);
    }
}

} // verus!
