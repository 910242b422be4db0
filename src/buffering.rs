//! The buffering pipeline: a channel-major sample matrix cut into
//! fixed-size windows and put back together, and the sample layouts used at
//! the edges (contiguous channel-major for a native call, interleaved frames
//! for the audio container).

use vstd::prelude::*;
use vstd::arithmetic::div_mod::{
    lemma_fundamental_div_mod, lemma_fundamental_div_mod_converse,
};

verus! {

/// The views of a vector of channels.
pub open spec fn mview<T>(v: Seq<Vec<T>>) -> Seq<Seq<T>> {
    v.map_values(|x: Vec<T>| x@)
}

/// The views of a vector of buffers.
pub open spec fn bview<T>(v: Seq<Vec<Vec<T>>>) -> Seq<Seq<Seq<T>>> {
    v.map_values(|x: Vec<Vec<T>>| mview(x@))
}

/// Number of samples per channel: that of the first channel, 0 without one.
pub open spec fn frame_count<T>(m: Seq<Seq<T>>) -> int {
    if m.len() > 0 {
        m[0].len() as int
    } else {
        0
    }
}

/// Every channel of `m` holds `n` samples.
pub open spec fn is_matrix<T>(m: Seq<Seq<T>>, n: int) -> bool {
    forall|c: int| 0 <= c < m.len() ==> #[trigger] m[c].len() == n
}

/// Every buffer of `bufs` has `channels` channels of `w` samples.
pub open spec fn is_buffers<T>(bufs: Seq<Seq<Seq<T>>>, channels: int, w: int) -> bool {
    forall|b: int| 0 <= b < bufs.len() ==> #[trigger] bufs[b].len() == channels && is_matrix(
        bufs[b],
        w,
    )
}

/// Number of windows of size `w` that cover `total` samples.
pub open spec fn buffer_count(total: int, w: int) -> int {
    (total + w - 1) / w
}

/// The windows of `m`: buffer `b` holds, in each channel, the samples at
/// `[b*w, (b+1)*w)`; positions past the end hold `pad`.
pub open spec fn chunked<T>(m: Seq<Seq<T>>, w: int, pad: T) -> Seq<Seq<Seq<T>>> {
    let total = frame_count(m);
    Seq::new(
        buffer_count(total, w) as nat,
        |b: int|
            Seq::new(
                m.len(),
                |c: int| Seq::new(w as nat, |k: int| if b * w + k < total { m[c][b * w + k] } else { pad }),
            ),
    )
}

/// The matrix of `channels` channels and `total` samples read back from
/// windows of size `w`: sample `i` comes from offset `i % w` of buffer
/// `i / w`, or is `fill` when there is no such buffer. Padding past `total`
/// is dropped.
pub open spec fn reassembled<T>(
    bufs: Seq<Seq<Seq<T>>>,
    w: int,
    total: int,
    channels: int,
    fill: T,
) -> Seq<Seq<T>> {
    Seq::new(
        channels as nat,
        |c: int|
            Seq::new(
                total as nat,
                |i: int| if i / w < bufs.len() { bufs[i / w][c][i % w] } else { fill },
            ),
    )
}

/// Cuts `samples` into windows of `window` samples per channel, the last
/// one filled up with `pad`.
pub fn chunk<T: Copy>(samples: &Vec<Vec<T>>, window: usize, pad: T) -> (r: Vec<Vec<Vec<T>>>)
    requires
        window >= 1,
        is_matrix(mview(samples@), frame_count(mview(samples@))),
        frame_count(mview(samples@)) + window <= usize::MAX,
    ensures
        bview(r@) == chunked(mview(samples@), window as int, pad),
{
    let ghost m = mview(samples@);
    let ch = samples.len();
    let total: usize = if ch > 0 {
        samples[0].len()
    } else {
        0
    };
    let nb = (total + window - 1) / window;
    proof {
        lemma_fundamental_div_mod(total + window - 1, window as int);
        assert(nb * window <= total + window - 1) by (nonlinear_arith)
            requires
                total + window - 1 == window * ((total + window - 1) / window as int) + (total
                    + window - 1) % window as int,
                (total + window - 1) % window as int >= 0,
                nb == (total + window - 1) / window as int,
        ;
    }
    let ghost spec_r = chunked(m, window as int, pad);
    let mut r: Vec<Vec<Vec<T>>> = Vec::new();
    let mut b: usize = 0;
    let mut start: usize = 0;
    while b < nb
        invariant
            m == mview(samples@),
            ch == samples@.len(),
            total == frame_count(m),
            is_matrix(m, total as int),
            nb == buffer_count(total as int, window as int),
            nb * window <= total + window - 1,
            total + window <= usize::MAX,
            window >= 1,
            b <= nb,
            start == b * window,
            spec_r == chunked(m, window as int, pad),
            spec_r.len() == nb,
            bview(r@) == spec_r.take(b as int),
        decreases nb - b,
    {
        proof {
            assert((b + 1) * window <= nb * window) by (nonlinear_arith)
                requires
                    b < nb,
            ;
            assert((b + 1) * window == b * window + window) by (nonlinear_arith);
        }
        assert(spec_r[b as int].len() == ch);
        let mut buf: Vec<Vec<T>> = Vec::new();
        let mut c: usize = 0;
        while c < ch
            invariant
                m == mview(samples@),
                ch == samples@.len(),
                total == frame_count(m),
                is_matrix(m, total as int),
                start + window <= usize::MAX,
                b < nb,
                start == b * window,
                spec_r == chunked(m, window as int, pad),
                spec_r.len() == nb,
                spec_r[b as int].len() == ch,
                c <= ch,
                mview(buf@) == spec_r[b as int].take(c as int),
            decreases ch - c,
        {
            assert(spec_r[b as int][c as int].len() == window);
            let mut chan: Vec<T> = Vec::new();
            let mut k: usize = 0;
            while k < window
                invariant
                    m == mview(samples@),
                    ch == samples@.len(),
                    total == frame_count(m),
                    is_matrix(m, total as int),
                    start + window <= usize::MAX,
                    b < nb,
                    start == b * window,
                    spec_r == chunked(m, window as int, pad),
                    spec_r.len() == nb,
                    spec_r[b as int].len() == ch,
                    spec_r[b as int][c as int].len() == window,
                    c < ch,
                    k <= window,
                    chan@ == spec_r[b as int][c as int].take(k as int),
                decreases window - k,
            {
                let pos = start + k;
                let x: T = if pos < total {
                    assert(m[c as int].len() == total);
                    samples[c][pos]
                } else {
                    pad
                };
                chan.push(x);
                k = k + 1;
                assert(chan@ =~= spec_r[b as int][c as int].take(k as int));
            }
            assert(spec_r[b as int][c as int].take(window as int) =~= spec_r[b as int][c as int]);
            assert(chan@ == spec_r[b as int][c as int]);
            let ghost before = buf@;
            buf.push(chan);
            assert(mview(buf@) =~= mview(before).push(spec_r[b as int][c as int]));
            assert(spec_r[b as int].take(c + 1) =~= spec_r[b as int].take(c as int).push(
                spec_r[b as int][c as int],
            ));
            c = c + 1;
        }
        assert(spec_r[b as int].take(ch as int) =~= spec_r[b as int]);
        assert(mview(buf@) == spec_r[b as int]);
        let ghost before = r@;
        r.push(buf);
        assert(bview(r@) =~= bview(before).push(spec_r[b as int]));
        assert(spec_r.take(b + 1) =~= spec_r.take(b as int).push(spec_r[b as int]));
        b = b + 1;
        start = start + window;
    }
    assert(spec_r.take(nb as int) =~= spec_r);
    r
}

/// Puts windows of size `window` back into a matrix of `channels` channels
/// and `total` samples, dropping the padding past `total`; samples that no
/// window covers are `fill`.
pub fn reassemble<T: Copy>(
    buffers: &Vec<Vec<Vec<T>>>,
    window: usize,
    total: usize,
    channels: usize,
    fill: T,
) -> (r: Vec<Vec<T>>)
    requires
        window >= 1,
        is_buffers(bview(buffers@), channels as int, window as int),
    ensures
        mview(r@) == reassembled(bview(buffers@), window as int, total as int, channels as int, fill),
{
    let ghost bufs = bview(buffers@);
    let ghost spec_r = reassembled(bufs, window as int, total as int, channels as int, fill);
    let nb = buffers.len();
    let mut r: Vec<Vec<T>> = Vec::new();
    let mut c: usize = 0;
    while c < channels
        invariant
            bufs == bview(buffers@),
            nb == bufs.len(),
            window >= 1,
            is_buffers(bufs, channels as int, window as int),
            spec_r == reassembled(bufs, window as int, total as int, channels as int, fill),
            spec_r.len() == channels,
            c <= channels,
            mview(r@) == spec_r.take(c as int),
        decreases channels - c,
    {
        let mut chan: Vec<T> = Vec::new();
        let mut i: usize = 0;
        let mut b: usize = 0;
        let mut k: usize = 0;
        while i < total
            invariant
                bufs == bview(buffers@),
                nb == bufs.len(),
                window >= 1,
                is_buffers(bufs, channels as int, window as int),
                spec_r == reassembled(bufs, window as int, total as int, channels as int, fill),
                spec_r.len() == channels,
                spec_r[c as int].len() == total,
                c < channels,
                i <= total,
                k < window,
                i == b * window + k,
                chan@ == spec_r[c as int].take(i as int),
            decreases total - i,
        {
            proof {
                lemma_fundamental_div_mod_converse(i as int, window as int, b as int, k as int);
            }
            let x: T = if b < nb {
                assert(bufs[b as int].len() == channels);
                assert(bufs[b as int][c as int].len() == window);
                assert(bufs[b as int][c as int] == buffers@[b as int]@[c as int]@);
                buffers[b][c][k]
            } else {
                fill
            };
            chan.push(x);
            i = i + 1;
            if k + 1 == window {
                k = 0;
                b = b + 1;
                assert(i == b * window + k) by (nonlinear_arith)
                    requires
                        i == (b - 1) * window + (window - 1) + 1,
                        k == 0,
                ;
            } else {
                k = k + 1;
            }
            assert(chan@ =~= spec_r[c as int].take(i as int));
        }
        assert(spec_r[c as int].take(total as int) =~= spec_r[c as int]);
        assert(chan@ == spec_r[c as int]);
        let ghost before = r@;
        r.push(chan);
        assert(mview(r@) =~= mview(before).push(spec_r[c as int]));
        assert(spec_r.take(c + 1) =~= spec_r.take(c as int).push(spec_r[c as int]));
        c = c + 1;
    }
    assert(spec_r.take(channels as int) =~= spec_r);
    r
}

/// Windows put back together give the matrix that was cut: for every
/// matrix `m` whose channels have equal length and every window size
/// `w >= 1`, reassembling `chunk(m, w)` to `m`'s length and channel count
/// gives `m` again, whatever the padding and fill values.
pub proof fn lemma_round_trip<T>(m: Seq<Seq<T>>, w: int, pad: T, fill: T)
    requires
        w >= 1,
        is_matrix(m, frame_count(m)),
    ensures
        reassembled(chunked(m, w, pad), w, frame_count(m), m.len() as int, fill) == m,
{
    let total = frame_count(m);
    let bufs = chunked(m, w, pad);
    let r = reassembled(bufs, w, total, m.len() as int, fill);
    assert forall|c: int| 0 <= c < m.len() implies r[c] == m[c] by {
        assert forall|i: int| 0 <= i < total implies r[c][i] == m[c][i] by {
            lemma_fundamental_div_mod(i, w);
            let q = i / w;
            let k = i % w;
            assert(0 <= q);
            assert(q * w <= i) by (nonlinear_arith)
                requires
                    i == w * q + k,
                    0 <= k,
            ;
            lemma_fundamental_div_mod(total + w - 1, w);
            assert(q < buffer_count(total, w)) by (nonlinear_arith)
                requires
                    q * w <= i,
                    i < total,
                    w >= 1,
                    total + w - 1 == w * ((total + w - 1) / w) + (total + w - 1) % w,
                    (total + w - 1) % w < w,
                    buffer_count(total, w) == (total + w - 1) / w,
            ;
            assert(q * w + k == i) by (nonlinear_arith)
                requires
                    i == w * q + k,
            ;
        }
        assert(r[c] =~= m[c]);
    }
    assert(r =~= m);
}

/// Meaningful samples of window `b` over `total` samples: `w` for a full
/// window, what is left for the last one, 0 past the end.
pub open spec fn meaningful(total: int, w: int, b: int) -> int {
    if b * w >= total {
        0
    } else if total - b * w >= w {
        w
    } else {
        total - b * w
    }
}

/// The channels of `m` (each of `n` samples) one after the other.
pub open spec fn flattened<T>(m: Seq<Seq<T>>, n: int) -> Seq<T> {
    Seq::new((m.len() * n) as nat, |i: int| m[i / n][i % n])
}

/// `channels` channels of `n` samples cut from the contiguous `flat`.
pub open spec fn unflattened<T>(flat: Seq<T>, channels: int, n: int) -> Seq<Seq<T>> {
    Seq::new(channels as nat, |c: int| flat.subrange(c * n, c * n + n))
}

/// Frames of `m` (each of `n` samples) in turn, one sample per channel each.
pub open spec fn interleaved<T>(m: Seq<Seq<T>>, n: int) -> Seq<T> {
    Seq::new((n * m.len()) as nat, |i: int| m[i % (m.len() as int)][i / (m.len() as int)])
}

/// `channels` channels of `n` samples read from interleaved frames.
pub open spec fn deinterleaved<T>(frames: Seq<T>, channels: int, n: int) -> Seq<Seq<T>> {
    Seq::new(channels as nat, |c: int| Seq::new(n as nat, |i: int| frames[i * channels + c]))
}

/// Number of meaningful samples in window `index` of a matrix of `total`
/// samples per channel cut into windows of `window`.
pub fn meaningful_len(total: usize, window: usize, index: usize) -> (r: usize)
    ensures
        r == meaningful(total as int, window as int, index as int),
{
    if window == 0 {
        return 0;
    }
    let full = total / window;
    let ghost t = total as int;
    let ghost w = window as int;
    let ghost q = full as int;
    let ghost rem = t % w;
    proof {
        lemma_fundamental_div_mod(t, w);
        assert(q == t / w);
        assert(0 <= rem < w);
    }
    if index > full {
        proof {
            assert(index * w >= t) by (nonlinear_arith)
                requires
                    index >= q + 1,
                    t == w * q + rem,
                    rem < w,
                    w >= 1,
            ;
        }
        return 0;
    }
    proof {
        assert(index * w <= t) by (nonlinear_arith)
            requires
                index <= q,
                t == w * q + rem,
                rem >= 0,
                w >= 0,
        ;
    }
    let start = index * window;
    if start >= total {
        0
    } else if total - start >= window {
        window
    } else {
        total - start
    }
}

/// The channels of `buffer` laid end to end, as a native processing call
/// takes them.
pub fn flatten<T: Copy>(buffer: &Vec<Vec<T>>, samples: usize) -> (r: Vec<T>)
    requires
        is_matrix(mview(buffer@), samples as int),
        buffer@.len() * samples <= usize::MAX,
    ensures
        r@ == flattened(mview(buffer@), samples as int),
{
    let ghost m = mview(buffer@);
    let ghost spec_r = flattened(m, samples as int);
    let ch = buffer.len();
    let mut r: Vec<T> = Vec::new();
    let mut c: usize = 0;
    let mut base: usize = 0;
    while c < ch
        invariant
            m == mview(buffer@),
            ch == m.len(),
            is_matrix(m, samples as int),
            ch * samples <= usize::MAX,
            spec_r == flattened(m, samples as int),
            c <= ch,
            base == c * samples,
            r@ == spec_r.take(base as int),
        decreases ch - c,
    {
        proof {
            assert((c + 1) * samples == c * samples + samples) by (nonlinear_arith);
            assert((c + 1) * samples <= ch * samples) by (nonlinear_arith)
                requires
                    c < ch,
            ;
        }
        assert(m[c as int].len() == samples);
        let mut s: usize = 0;
        while s < samples
            invariant
                m == mview(buffer@),
                ch == m.len(),
                is_matrix(m, samples as int),
                spec_r == flattened(m, samples as int),
                c < ch,
                base == c * samples,
                base + samples <= ch * samples,
                s <= samples,
                r@ == spec_r.take(base + s),
            decreases samples - s,
        {
            proof {
                lemma_fundamental_div_mod_converse(base + s, samples as int, c as int, s as int);
            }
            assert(m[c as int].len() == samples);
            r.push(buffer[c][s]);
            s = s + 1;
            assert(r@ =~= spec_r.take(base + s));
        }
        c = c + 1;
        base = base + samples;
    }
    assert(spec_r.take(base as int) =~= spec_r);
    r
}

/// `channels` channels of `samples` samples cut from contiguous `flat`, as
/// a native processing call fills them.
pub fn unflatten<T: Copy>(flat: &Vec<T>, channels: usize, samples: usize) -> (r: Vec<Vec<T>>)
    requires
        flat@.len() == channels * samples,
    ensures
        mview(r@) == unflattened(flat@, channels as int, samples as int),
{
    let ghost spec_r = unflattened(flat@, channels as int, samples as int);
    let len = flat.len();
    let mut r: Vec<Vec<T>> = Vec::new();
    let mut c: usize = 0;
    let mut base: usize = 0;
    while c < channels
        invariant
            len == flat@.len(),
            flat@.len() == channels * samples,
            spec_r == unflattened(flat@, channels as int, samples as int),
            c <= channels,
            base == c * samples,
            mview(r@) == spec_r.take(c as int),
        decreases channels - c,
    {
        proof {
            assert((c + 1) * samples == c * samples + samples) by (nonlinear_arith);
            assert((c + 1) * samples <= channels * samples) by (nonlinear_arith)
                requires
                    c < channels,
            ;
        }
        let mut chan: Vec<T> = Vec::new();
        let mut s: usize = 0;
        while s < samples
            invariant
                len == flat@.len(),
                flat@.len() == channels * samples,
                base + samples <= flat@.len(),
                s <= samples,
                chan@ == flat@.subrange(base as int, base + s),
            decreases samples - s,
        {
            chan.push(flat[base + s]);
            s = s + 1;
            assert(chan@ =~= flat@.subrange(base as int, base + s));
        }
        let ghost before = r@;
        r.push(chan);
        assert(mview(r@) =~= mview(before).push(spec_r[c as int]));
        assert(spec_r.take(c + 1) =~= spec_r.take(c as int).push(spec_r[c as int]));
        c = c + 1;
        base = base + samples;
    }
    assert(spec_r.take(channels as int) =~= spec_r);
    r
}

/// The samples of `m` as interleaved frames, as the audio container
/// stores them.
pub fn interleave<T: Copy>(m: &Vec<Vec<T>>, samples: usize) -> (r: Vec<T>)
    requires
        is_matrix(mview(m@), samples as int),
        samples * m@.len() <= usize::MAX,
    ensures
        r@ == interleaved(mview(m@), samples as int),
{
    let ghost mv = mview(m@);
    let ghost spec_r = interleaved(mv, samples as int);
    let ch = m.len();
    let mut r: Vec<T> = Vec::new();
    let mut i: usize = 0;
    let mut base: usize = 0;
    while i < samples
        invariant
            mv == mview(m@),
            ch == mv.len(),
            is_matrix(mv, samples as int),
            samples * ch <= usize::MAX,
            spec_r == interleaved(mv, samples as int),
            i <= samples,
            base == i * ch,
            r@ == spec_r.take(base as int),
        decreases samples - i,
    {
        proof {
            assert((i + 1) * ch == i * ch + ch) by (nonlinear_arith);
            assert((i + 1) * ch <= samples * ch) by (nonlinear_arith)
                requires
                    i < samples,
            ;
        }
        let mut c: usize = 0;
        while c < ch
            invariant
                mv == mview(m@),
                ch == mv.len(),
                is_matrix(mv, samples as int),
                spec_r == interleaved(mv, samples as int),
                i < samples,
                base == i * ch,
                base + ch <= samples * ch,
                c <= ch,
                r@ == spec_r.take(base + c),
            decreases ch - c,
        {
            proof {
                lemma_fundamental_div_mod_converse(base + c, ch as int, i as int, c as int);
            }
            assert(mv[c as int].len() == samples);
            r.push(m[c][i]);
            c = c + 1;
            assert(r@ =~= spec_r.take(base + c));
        }
        i = i + 1;
        base = base + ch;
    }
    assert(spec_r.take(base as int) =~= spec_r);
    r
}

/// `channels` channels of `samples` samples read from interleaved `frames`,
/// as the audio container delivers them.
pub fn deinterleave<T: Copy>(frames: &Vec<T>, channels: usize, samples: usize) -> (r: Vec<
    Vec<T>,
>)
    requires
        frames@.len() == samples * channels,
    ensures
        mview(r@) == deinterleaved(frames@, channels as int, samples as int),
{
    let ghost spec_r = deinterleaved(frames@, channels as int, samples as int);
    let len = frames.len();
    let mut r: Vec<Vec<T>> = Vec::new();
    let mut c: usize = 0;
    while c < channels
        invariant
            len == frames@.len(),
            frames@.len() == samples * channels,
            spec_r == deinterleaved(frames@, channels as int, samples as int),
            c <= channels,
            mview(r@) == spec_r.take(c as int),
        decreases channels - c,
    {
        let mut chan: Vec<T> = Vec::new();
        let mut i: usize = 0;
        let mut idx: usize = c;
        while i < samples
            invariant
                len == frames@.len(),
                frames@.len() == samples * channels,
                spec_r == deinterleaved(frames@, channels as int, samples as int),
                c < channels,
                i <= samples,
                i < samples ==> idx == i * channels + c,
                chan@ == spec_r[c as int].take(i as int),
            decreases samples - i,
        {
            proof {
                assert(i * channels + c < samples * channels) by (nonlinear_arith)
                    requires
                        i < samples,
                        c < channels,
                ;
                assert((i + 1) * channels == i * channels + channels) by (nonlinear_arith);
            }
            chan.push(frames[idx]);
            i = i + 1;
            if i < samples {
                assert(i * channels + c < samples * channels) by (nonlinear_arith)
                    requires
                        i < samples,
                        c < channels,
                ;
                idx = idx + channels;
            }
            assert(chan@ =~= spec_r[c as int].take(i as int));
        }
        assert(spec_r[c as int].take(samples as int) =~= spec_r[c as int]);
        let ghost before = r@;
        r.push(chan);
        assert(mview(r@) =~= mview(before).push(spec_r[c as int]));
        assert(spec_r.take(c + 1) =~= spec_r.take(c as int).push(spec_r[c as int]));
        c = c + 1;
    }
    assert(spec_r.take(channels as int) =~= spec_r);
    r
}

/// The contiguous layout loses nothing: cutting the flattened channels of
/// a matrix back into channels gives the matrix.
pub proof fn lemma_flat_layout<T>(m: Seq<Seq<T>>, n: int)
    requires
        n >= 0,
        is_matrix(m, n),
    ensures
        unflattened(flattened(m, n), m.len() as int, n) == m,
{
    let f = flattened(m, n);
    let r = unflattened(f, m.len() as int, n);
    assert forall|c: int| 0 <= c < m.len() implies r[c] == m[c] by {
        assert(c * n + n <= m.len() * n) by (nonlinear_arith)
            requires
                c < m.len(),
                n >= 0,
        ;
        assert(0 <= c * n) by (nonlinear_arith)
            requires
                c >= 0,
                n >= 0,
        ;
        assert forall|s: int| 0 <= s < n implies r[c][s] == m[c][s] by {
            lemma_fundamental_div_mod_converse(c * n + s, n, c, s);
        }
        assert(r[c] =~= m[c]);
    }
    assert(r =~= m);
}

/// The interleaved layout loses nothing: reading interleaved frames of a
/// matrix back into channels gives the matrix.
pub proof fn lemma_frame_layout<T>(m: Seq<Seq<T>>, n: int)
    requires
        n >= 0,
        is_matrix(m, n),
    ensures
        deinterleaved(interleaved(m, n), m.len() as int, n) == m,
{
    let ch = m.len() as int;
    let f = interleaved(m, n);
    let r = deinterleaved(f, ch, n);
    assert forall|c: int| 0 <= c < ch implies r[c] == m[c] by {
        assert forall|i: int| 0 <= i < n implies r[c][i] == m[c][i] by {
            assert(i * ch + c < n * ch) by (nonlinear_arith)
                requires
                    i < n,
                    0 <= c < ch,
                    0 <= i,
            ;
            assert(0 <= i * ch) by (nonlinear_arith)
                requires
                    i >= 0,
                    ch >= 0,
            ;
            lemma_fundamental_div_mod_converse(i * ch + c, ch, i, c);
        }
        assert(r[c] =~= m[c]);
    }
    assert(r =~= m);
}

/// Format of the audio written back: 32-bit float samples, with the
/// channel count and sample rate of the input.
#[derive(Clone, Copy, Debug, PartialEq, Eq, Structural)]
pub struct FloatFormat {
    pub channel_count: u16,
    pub sample_rate: u32,
    pub bytes_per_second: u32,
    pub block_alignment: u16,
    pub bits_per_sample: u16,
}

/// The 32-bit float format for `channel_count` channels at `sample_rate`:
/// four bytes per sample and channel in a frame, a frame per sample; none
/// when a frame's size does not fit in 16 bits or the byte rate in 32.
pub fn float_output_format(channel_count: u16, sample_rate: u32) -> (r: Option<FloatFormat>)
    ensures
        r is Some <==> (channel_count * 4 <= u16::MAX && channel_count * 4 * sample_rate
            <= u32::MAX),
        r matches Some(f) ==> f == (FloatFormat {
            channel_count,
            sample_rate,
            bytes_per_second: (channel_count * 4 * sample_rate) as u32,
            block_alignment: (channel_count * 4) as u16,
            bits_per_sample: 32,
        }),
{
    if channel_count > 16383 {
        return None;
    }
    let block: u16 = channel_count * 4;
    if sample_rate > 0 && (block as u32) > u32::MAX / sample_rate {
        proof {
            let m = u32::MAX as int;
            let d = sample_rate as int;
            let q = m / d;
            lemma_fundamental_div_mod(m, d);
            assert(block * d > m) by (nonlinear_arith)
                requires
                    d > 0,
                    block >= q + 1,
                    m == d * q + m % d,
                    m % d < d,
            ;
        }
        return None;
    }
    proof {
        if sample_rate > 0 {
            let m = u32::MAX as int;
            let d = sample_rate as int;
            let q = m / d;
            lemma_fundamental_div_mod(m, d);
            assert(block * d <= m) by (nonlinear_arith)
                requires
                    d > 0,
                    block <= q,
                    m == d * q + m % d,
                    m % d >= 0,
            ;
        }
    }
    Some(
        FloatFormat {
            channel_count,
            sample_rate,
            bytes_per_second: (block as u32) * sample_rate,
            block_alignment: block,
            bits_per_sample: 32,
        },
    )
}

} // verus!
