//! Cutting the bytes read from an agent into frames: each frame is one
//! top-level JSON object, found by counting braces outside of strings.
//! Bytes between objects are skipped; an object that has not ended yet
//! stays in the buffer for the next read.

use vstd::prelude::*;

verus! {

/// Where the scan stands after some bytes: how deep inside braces, whether
/// inside a string, and whether the last string byte was a backslash.
pub struct ScanState {
    pub depth: nat,
    pub in_string: bool,
    pub escaped: bool,
}

pub open spec fn start_state() -> ScanState {
    ScanState { depth: 0, in_string: false, escaped: false }
}

/// One byte of the scan. Outside every object only `{` counts; inside, a
/// `"` opens a string, in which `\` escapes the next byte and `"` closes
/// it; outside strings `{` and `}` nest.
pub open spec fn scan_byte(s: ScanState, b: u8) -> ScanState {
    if s.in_string {
        if s.escaped {
            ScanState { escaped: false, ..s }
        } else if b == 92 {
            ScanState { escaped: true, ..s }
        } else if b == 34 {
            ScanState { in_string: false, ..s }
        } else {
            s
        }
    } else if s.depth == 0 {
        if b == 123 {
            ScanState { depth: 1, ..s }
        } else {
            s
        }
    } else if b == 34 {
        ScanState { in_string: true, ..s }
    } else if b == 123 {
        ScanState { depth: s.depth + 1, ..s }
    } else if b == 125 {
        ScanState { depth: (s.depth - 1) as nat, ..s }
    } else {
        s
    }
}

/// The scan state after the first `n` bytes.
pub open spec fn state_at(bytes: Seq<u8>, n: nat) -> ScanState
    decreases n,
{
    if n == 0 || n > bytes.len() {
        start_state()
    } else {
        scan_byte(state_at(bytes, (n - 1) as nat), bytes[n - 1])
    }
}

/// The byte at `i` closes a top-level object.
pub open spec fn closes_at(bytes: Seq<u8>, i: nat) -> bool {
    let s = state_at(bytes, i);
    &&& i < bytes.len()
    &&& s.depth == 1
    &&& !s.in_string
    &&& bytes[i as int] == 125
}

/// Where the object that is open after the first `n` bytes began.
pub open spec fn open_at(bytes: Seq<u8>, n: nat) -> nat
    decreases n,
{
    if n == 0 || n > bytes.len() {
        0
    } else if state_at(bytes, (n - 1) as nat).depth == 0 && bytes[n - 1] == 123 {
        (n - 1) as nat
    } else {
        open_at(bytes, (n - 1) as nat)
    }
}

/// Start and end of every object that closes within the first `n` bytes.
pub open spec fn frame_bounds(bytes: Seq<u8>, n: nat) -> Seq<(nat, nat)>
    decreases n,
{
    if n == 0 || n > bytes.len() {
        Seq::empty()
    } else if closes_at(bytes, (n - 1) as nat) {
        frame_bounds(bytes, (n - 1) as nat).push((open_at(bytes, (n - 1) as nat), n))
    } else {
        frame_bounds(bytes, (n - 1) as nat)
    }
}

/// The complete objects in `bytes`, in order.
pub open spec fn frames_of(bytes: Seq<u8>) -> Seq<Seq<u8>> {
    frame_bounds(bytes, bytes.len()).map_values(|p: (nat, nat)| bytes.subrange(p.0 as int, p.1 as int))
}

/// How many leading bytes are done with: all of them when no object is
/// open at the end, else those before the open object.
pub open spec fn consumed(bytes: Seq<u8>) -> nat {
    if state_at(bytes, bytes.len()).depth == 0 {
        bytes.len()
    } else {
        open_at(bytes, bytes.len())
    }
}

/// The view of found frame bounds.
pub open spec fn bound_views(b: Seq<(usize, usize)>) -> Seq<(nat, nat)> {
    b.map_values(|p: (usize, usize)| (p.0 as nat, p.1 as nat))
}

/// Scans `bytes`: the complete objects, their bounds, and how many leading
/// bytes are done with.
fn scan(bytes: &[u8]) -> (res: (Vec<Vec<u8>>, Vec<(usize, usize)>, usize))
    ensures
        res.0@.map_values(|f: Vec<u8>| f@) =~= frames_of(bytes@),
        bound_views(res.1@) =~= frame_bounds(bytes@, bytes@.len()),
        res.2 == consumed(bytes@),
{
    let n = bytes.len();
    let ghost b = bytes@;
    let mut frames: Vec<Vec<u8>> = Vec::new();
    let mut bounds: Vec<(usize, usize)> = Vec::new();
    let mut depth: usize = 0;
    let mut in_string = false;
    let mut escaped = false;
    let mut open: usize = 0;
    let mut i: usize = 0;
    while i < n
        invariant
            n == b.len(),
            b == bytes@,
            i <= n,
            depth <= i,
            state_at(b, i as nat) == (ScanState { depth: depth as nat, in_string, escaped }),
            open == open_at(b, i as nat),
            frames@.map_values(|f: Vec<u8>| f@) =~= frame_bounds(b, i as nat).map_values(
                |p: (nat, nat)| b.subrange(p.0 as int, p.1 as int),
            ),
            bound_views(bounds@) =~= frame_bounds(b, i as nat),
            forall|k: int| 0 <= k < frame_bounds(b, i as nat).len() ==>
                (#[trigger] frame_bounds(b, i as nat)[k]).0 <= frame_bounds(b, i as nat)[k].1 <= i,
            open <= i,
            in_string ==> depth > 0,
        decreases n - i,
    {
        let byte = bytes[i];
        let ghost before = frame_bounds(b, i as nat);
        let ghost frames_before = frames@;
        let ghost bounds_before = bounds@;
        let closes = !in_string && depth == 1 && byte == 125;
        if !in_string && depth == 0 && byte == 123 {
            open = i;
        }
        if closes {
            let frame = vstd::slice::slice_to_vec(vstd::slice::slice_subrange(bytes, open, i + 1));
            proof {
                assert(frame@ == b.subrange(open as int, i + 1));
                assert(frames_before.push(frame).map_values(|f: Vec<u8>| f@)
                    =~= frames_before.map_values(|f: Vec<u8>| f@).push(frame@));
                assert(before.push((open as nat, (i + 1) as nat)).map_values(
                    |p: (nat, nat)| b.subrange(p.0 as int, p.1 as int),
                ) =~= before.map_values(|p: (nat, nat)| b.subrange(p.0 as int, p.1 as int)).push(
                    b.subrange(open as int, i + 1),
                ));
                assert(bound_views(bounds_before.push((open, (i + 1) as usize)))
                    =~= bound_views(bounds_before).push((open as nat, (i + 1) as nat)));
            }
            frames.push(frame);
            bounds.push((open, i + 1));
        }
        if in_string {
            if escaped {
                escaped = false;
            } else if byte == 92 {
                escaped = true;
            } else if byte == 34 {
                in_string = false;
            }
        } else if depth == 0 {
            if byte == 123 {
                depth = 1;
            }
        } else if byte == 34 {
            in_string = true;
        } else if byte == 123 {
            depth = depth + 1;
        } else if byte == 125 {
            depth = depth - 1;
        }
        proof {
            assert(state_at(b, (i + 1) as nat) == scan_byte(state_at(b, i as nat), b[i as int]));
            if closes {
                assert(frame_bounds(b, (i + 1) as nat) == before.push((open_at(b, i as nat), (i + 1) as nat)));
            } else {
                assert(frame_bounds(b, (i + 1) as nat) == before);
            }
        }
        i = i + 1;
    }
    let used = if depth == 0 { n } else { open };
    (frames, bounds, used)
}

/// Splits `bytes` into its complete objects and says how many leading
/// bytes may be dropped from the buffer.
pub fn split_frames(bytes: &[u8]) -> (res: (Vec<Vec<u8>>, usize))
    ensures
        res.0@.map_values(|f: Vec<u8>| f@) =~= frames_of(bytes@),
        res.1 == consumed(bytes@),
{
    let (frames, _bounds, used) = scan(bytes);
    (frames, used)
}

/// The bytes of exactly one object: a `{` that the scan closes at the last
/// byte and not before.
pub open spec fn is_object(o: Seq<u8>) -> bool {
    &&& o.len() > 0
    &&& o[0] == 123
    &&& state_at(o, o.len()) == start_state()
    &&& forall|k: nat| 0 < k < o.len() ==> #[trigger] state_at(o, k).depth > 0
}

/// The objects written one after the other.
pub open spec fn concat_all(objs: Seq<Seq<u8>>) -> Seq<u8>
    decreases objs.len(),
{
    if objs.len() == 0 {
        Seq::empty()
    } else {
        concat_all(objs.drop_last()) + objs.last()
    }
}

proof fn lemma_scan_facts(s: ScanState, b: u8)
    requires
        s.in_string ==> s.depth > 0,
    ensures
        scan_byte(s, b).in_string ==> scan_byte(s, b).depth > 0,
        s.depth > 0 && scan_byte(s, b).depth == 0 ==> s.depth == 1 && !s.in_string && b == 125,
{
}

proof fn lemma_string_inside(bytes: Seq<u8>, n: nat)
    ensures
        state_at(bytes, n).in_string ==> state_at(bytes, n).depth > 0,
    decreases n,
{
    if n > 0 && n <= bytes.len() {
        lemma_string_inside(bytes, (n - 1) as nat);
        lemma_scan_facts(state_at(bytes, (n - 1) as nat), bytes[n - 1]);
    }
}

/// What the scan finds within the first `n` bytes.
pub open spec fn bounds_sound(bytes: Seq<u8>, n: nat) -> bool {
    let fb = frame_bounds(bytes, n);
    &&& forall|k: int| 0 <= k < fb.len() ==> (#[trigger] fb[k]).0 < fb[k].1 <= n
    &&& forall|k: int| 0 <= k < fb.len() - 1 ==> (#[trigger] fb[k]).1 <= fb[k + 1].0
    &&& state_at(bytes, n).depth > 0 ==> open_at(bytes, n) < n
    &&& state_at(bytes, n).depth > 0 ==> forall|k: int| 0 <= k < fb.len() ==> (#[trigger] fb[k]).1 <= open_at(bytes, n)
}

proof fn lemma_bounds_sound(bytes: Seq<u8>, n: nat)
    requires
        n <= bytes.len(),
    ensures
        bounds_sound(bytes, n),
    decreases n,
{
    if n > 0 {
        let m = (n - 1) as nat;
        lemma_bounds_sound(bytes, m);
        lemma_string_inside(bytes, m);
        lemma_scan_facts(state_at(bytes, m), bytes[m as int]);
        let fb = frame_bounds(bytes, m);
        if closes_at(bytes, m) {
            let nb = fb.push((open_at(bytes, m), n));
            assert(frame_bounds(bytes, n) == nb);
            assert forall|k: int| 0 <= k < nb.len() - 1 implies (#[trigger] nb[k]).1 <= nb[k + 1].0 by {
                if k < fb.len() - 1 {
                    assert(nb[k] == fb[k] && nb[k + 1] == fb[k + 1]);
                }
            }
        }
    }
}

/// The frames come out in order, do not overlap, and lie within the bytes
/// that the split marks as done with; nothing of a frame is left in the
/// buffer, and the rest of the buffer starts where the open object begins.
pub proof fn law_frames_lie_in_order(bytes: Seq<u8>)
    ensures
        ({
            let fb = frame_bounds(bytes, bytes.len());
            &&& consumed(bytes) <= bytes.len()
            &&& forall|k: int| 0 <= k < fb.len() ==> (#[trigger] fb[k]).0 < fb[k].1 <= consumed(bytes)
            &&& forall|k: int| 0 <= k < fb.len() - 1 ==> (#[trigger] fb[k]).1 <= fb[k + 1].0
            &&& frames_of(bytes).len() == fb.len()
            &&& forall|k: int| 0 <= k < fb.len() ==> #[trigger] frames_of(bytes)[k] == bytes.subrange(
                fb[k].0 as int,
                fb[k].1 as int,
            )
        }),
{
    lemma_bounds_sound(bytes, bytes.len());
}

proof fn lemma_prefix(a: Seq<u8>, b: Seq<u8>, j: nat)
    requires
        j <= a.len(),
    ensures
        state_at(a + b, j) == state_at(a, j),
        open_at(a + b, j) == open_at(a, j),
        frame_bounds(a + b, j) == frame_bounds(a, j),
    decreases j,
{
    if j > 0 {
        lemma_prefix(a, b, (j - 1) as nat);
        assert((a + b)[j - 1] == a[j - 1]);
    }
}

proof fn lemma_shift(a: Seq<u8>, b: Seq<u8>, k: nat)
    requires
        state_at(a, a.len()) == start_state(),
        k <= b.len(),
    ensures
        state_at(a + b, a.len() + k) == state_at(b, k),
    decreases k,
{
    if k == 0 {
        lemma_prefix(a, b, a.len());
    } else {
        lemma_shift(a, b, (k - 1) as nat);
        assert((a + b)[a.len() + k - 1] == b[k - 1]);
    }
}

proof fn lemma_inside_object(a: Seq<u8>, o: Seq<u8>, j: nat)
    requires
        state_at(a, a.len()) == start_state(),
        is_object(o),
        1 <= j < o.len(),
    ensures
        open_at(a + o, a.len() + j) == a.len(),
        frame_bounds(a + o, a.len() + j) == frame_bounds(a, a.len()),
    decreases j,
{
    let c = a + o;
    lemma_shift(a, o, (j - 1) as nat);
    lemma_shift(a, o, j);
    assert(c[a.len() + j - 1] == o[j - 1]);
    if j == 1 {
        lemma_prefix(a, o, a.len());
    } else {
        lemma_inside_object(a, o, (j - 1) as nat);
        assert(state_at(o, (j - 1) as nat).depth > 0);
        assert(state_at(o, j).depth > 0);
        lemma_string_inside(o, (j - 1) as nat);
        lemma_scan_facts(state_at(o, (j - 1) as nat), o[j - 1]);
    }
}

proof fn lemma_append_object(a: Seq<u8>, o: Seq<u8>)
    requires
        state_at(a, a.len()) == start_state(),
        is_object(o),
    ensures
        state_at(a + o, (a + o).len()) == start_state(),
        frame_bounds(a + o, (a + o).len()) == frame_bounds(a, a.len()).push((a.len(), (a + o).len())),
{
    let c = a + o;
    let last = (o.len() - 1) as nat;
    assert(o.len() >= 2) by {
        if o.len() == 1 {
            assert(state_at(o, 1) == scan_byte(start_state(), o[0]));
        }
    }
    lemma_shift(a, o, o.len());
    lemma_shift(a, o, last);
    lemma_inside_object(a, o, last);
    assert(state_at(o, last).depth > 0);
    lemma_string_inside(o, last);
    lemma_scan_facts(state_at(o, last), o[last as int]);
    assert(c[(a.len() + last) as int] == o[last as int]);
    assert(closes_at(c, a.len() + last));
}

proof fn lemma_concat_all(objs: Seq<Seq<u8>>)
    requires
        forall|i: int| 0 <= i < objs.len() ==> is_object(#[trigger] objs[i]),
    ensures
        ({
            let c = concat_all(objs);
            let fb = frame_bounds(c, c.len());
            &&& state_at(c, c.len()) == start_state()
            &&& fb.len() == objs.len()
            &&& forall|k: int| 0 <= k < fb.len() ==> (#[trigger] fb[k]).0 <= fb[k].1 <= c.len()
            &&& forall|k: int| 0 <= k < fb.len() ==> c.subrange((#[trigger] fb[k]).0 as int, fb[k].1 as int) == objs[k]
            &&& fb.len() > 0 ==> fb[0].0 == 0 && fb[fb.len() - 1].1 == c.len()
            &&& forall|k: int| 0 <= k < fb.len() - 1 ==> (#[trigger] fb[k]).1 == fb[k + 1].0
        }),
    decreases objs.len(),
{
    if objs.len() > 0 {
        let front = objs.drop_last();
        let o = objs.last();
        lemma_concat_all(front);
        let a = concat_all(front);
        let c = concat_all(objs);
        assert(c == a + o);
        lemma_append_object(a, o);
        let fa = frame_bounds(a, a.len());
        let fb = frame_bounds(c, c.len());
        if fa.len() == 0 {
            assert(front.len() == 0);
            assert(a.len() == 0);
        }
        assert forall|k: int| 0 <= k < fb.len() - 1 implies (#[trigger] fb[k]).1 == fb[k + 1].0 by {
            if k < fa.len() - 1 {
                assert(fb[k] == fa[k] && fb[k + 1] == fa[k + 1]);
            } else {
                assert(fb[k] == fa[fa.len() - 1]);
            }
        }
        assert forall|k: int| 0 <= k < fb.len() implies c.subrange((#[trigger] fb[k]).0 as int, fb[k].1 as int)
            == objs[k] by {
            if k < fa.len() {
                assert(fb[k] == fa[k]);
                assert(c.subrange(fa[k].0 as int, fa[k].1 as int) =~= a.subrange(fa[k].0 as int, fa[k].1 as int));
            } else {
                assert(c.subrange(a.len() as int, c.len() as int) =~= o);
            }
        }
    } else {
        assert(concat_all(objs).len() == 0);
    }
}

/// Objects sent one after the other come out of a buffer that holds them
/// all, in order, each whole, and the buffer is then done with.
pub proof fn law_concatenated_objects_come_out(objs: Seq<Seq<u8>>)
    requires
        forall|i: int| 0 <= i < objs.len() ==> is_object(#[trigger] objs[i]),
    ensures
        frames_of(concat_all(objs)) =~= objs,
        consumed(concat_all(objs)) == concat_all(objs).len(),
{
    lemma_concat_all(objs);
}

/// The most bytes the buffer keeps of an object that has not ended.
pub const MAX_PENDING: usize = 1048576;

/// Bounds that cover `0..n` exactly, one after the other.
pub open spec fn tiling(fb: Seq<(nat, nat)>, n: nat) -> bool {
    &&& fb.len() > 0
    &&& fb[0].0 == 0
    &&& fb[fb.len() - 1].1 == n
    &&& forall|k: int| 0 <= k < fb.len() - 1 ==> (#[trigger] fb[k]).1 == fb[k + 1].0
}

/// The read is made of whole objects and nothing else.
pub open spec fn tiles(c: Seq<u8>) -> bool {
    tiling(frame_bounds(c, c.len()), c.len())
}

/// The frames that a read yields and the bytes kept after it, given the
/// bytes kept before. A read made of whole objects yields exactly them and
/// drops whatever was kept, so that a broken object does not hold back the
/// frames after it; any other read is appended to what was kept. A kept
/// object longer than `MAX_PENDING` is dropped.
pub open spec fn after_chunk(pending: Seq<u8>, chunk: Seq<u8>) -> (Seq<Seq<u8>>, Seq<u8>) {
    if tiles(chunk) {
        (frames_of(chunk), Seq::empty())
    } else {
        let all = pending + chunk;
        let rest = all.skip(consumed(all) as int);
        (frames_of(all), if rest.len() > MAX_PENDING { Seq::empty() } else { rest })
    }
}

fn bounds_tile(bounds: &Vec<(usize, usize)>, n: usize) -> (res: bool)
    ensures
        res == tiling(bound_views(bounds@), n as nat),
{
    let ghost fb = bound_views(bounds@);
    let m = bounds.len();
    if m == 0 {
        return false;
    }
    assert(fb[0] == (bounds@[0].0 as nat, bounds@[0].1 as nat));
    assert(fb[m - 1] == (bounds@[m - 1].0 as nat, bounds@[m - 1].1 as nat));
    if bounds[0].0 != 0 || bounds[m - 1].1 != n {
        return false;
    }
    let mut k: usize = 0;
    while k + 1 < m
        invariant
            m == bounds@.len(),
            fb == bound_views(bounds@),
            k < m,
            forall|i: int| 0 <= i < k ==> (#[trigger] fb[i]).1 == fb[i + 1].0,
        decreases m - k,
    {
        assert(fb[k as int] == (bounds@[k as int].0 as nat, bounds@[k as int].1 as nat));
        assert(fb[k + 1] == (bounds@[k + 1].0 as nat, bounds@[k + 1].1 as nat));
        if bounds[k].1 != bounds[k + 1].0 {
            return false;
        }
        k = k + 1;
    }
    true
}

/// The bytes of one agent connection that do not form a frame yet.
pub struct FrameBuffer {
    pending: Vec<u8>,
}

impl FrameBuffer {
    /// The bytes kept for the next read.
    pub closed spec fn held(&self) -> Seq<u8> {
        self.pending@
    }

    /// A buffer that holds nothing.
    pub fn new() -> (b: Self)
        ensures
            b.held() == Seq::<u8>::empty(),
    {
        FrameBuffer { pending: Vec::new() }
    }

    /// Takes in one read and returns the frames that it completes.
    pub fn push_chunk(&mut self, chunk: &[u8]) -> (frames: Vec<Vec<u8>>)
        ensures
            frames@.map_values(|f: Vec<u8>| f@) =~= after_chunk(old(self).held(), chunk@).0,
            final(self).held() =~= after_chunk(old(self).held(), chunk@).1,
    {
        let (frames, bounds, _used) = scan(chunk);
        if bounds_tile(&bounds, chunk.len()) {
            self.pending = Vec::new();
            return frames;
        }
        let ghost before = self.pending@;
        let n = chunk.len();
        let mut i: usize = 0;
        while i < n
            invariant
                n == chunk@.len(),
                i <= n,
                self.pending@ =~= before + chunk@.take(i as int),
            decreases n - i,
        {
            self.pending.push(chunk[i]);
            assert(chunk@.take(i + 1) =~= chunk@.take(i as int).push(chunk@[i as int]));
            i = i + 1;
        }
        assert(chunk@.take(n as int) =~= chunk@);
        let (all_frames, _all_bounds, used) = scan(self.pending.as_slice());
        let len = self.pending.len();
        proof {
            lemma_bounds_sound(self.pending@, len as nat);
            law_frames_lie_in_order(self.pending@);
        }
        let rest = vstd::slice::slice_to_vec(vstd::slice::slice_subrange(self.pending.as_slice(), used, len));
        if rest.len() > MAX_PENDING {
            self.pending = Vec::new();
        } else {
            self.pending = rest;
        }
        all_frames
    }
}

/// A buffer holds at most `MAX_PENDING` bytes after any read.
pub proof fn law_buffer_is_bounded(pending: Seq<u8>, chunk: Seq<u8>)
    ensures
        after_chunk(pending, chunk).1.len() <= MAX_PENDING,
{
}

/// Recovery: a read made of whole objects yields exactly those objects,
/// whatever the buffer held before it (a stray `{`, a cut frame), and
/// leaves the buffer empty.
pub proof fn law_whole_read_recovers(pending: Seq<u8>, objs: Seq<Seq<u8>>)
    requires
        objs.len() > 0,
        forall|i: int| 0 <= i < objs.len() ==> is_object(#[trigger] objs[i]),
    ensures
        after_chunk(pending, concat_all(objs)) == (objs, Seq::<u8>::empty()),
{
    lemma_concat_all(objs);
    assert(frames_of(concat_all(objs)) =~= objs);
}

/// Shifts bounds right by `j`.
pub open spec fn shifted(fb: Seq<(nat, nat)>, j: nat) -> Seq<(nat, nat)> {
    fb.map_values(|p: (nat, nat)| ((p.0 + j) as nat, (p.1 + j) as nat))
}

/// The objects that close within the first `n` bytes.
pub open spec fn frames_within(bytes: Seq<u8>, n: nat) -> Seq<Seq<u8>> {
    frame_bounds(bytes, n).map_values(|p: (nat, nat)| bytes.subrange(p.0 as int, p.1 as int))
}

proof fn lemma_state_shape(bytes: Seq<u8>, n: nat)
    ensures
        state_at(bytes, n).escaped ==> state_at(bytes, n).in_string,
        state_at(bytes, n).in_string ==> state_at(bytes, n).depth > 0,
        state_at(bytes, n).depth == 0 ==> state_at(bytes, n) == start_state(),
    decreases n,
{
    if n > 0 && n <= bytes.len() {
        lemma_state_shape(bytes, (n - 1) as nat);
    }
}

proof fn lemma_open_state(bytes: Seq<u8>, n: nat)
    requires
        n <= bytes.len(),
    ensures
        state_at(bytes, n).depth > 0 ==> open_at(bytes, n) < n && state_at(bytes, open_at(bytes, n)) == start_state(),
    decreases n,
{
    if n > 0 {
        let m = (n - 1) as nat;
        lemma_open_state(bytes, m);
        lemma_state_shape(bytes, m);
    }
}

proof fn lemma_state_at_consumed(bytes: Seq<u8>)
    ensures
        state_at(bytes, consumed(bytes)) == start_state(),
        consumed(bytes) <= bytes.len(),
{
    lemma_state_shape(bytes, bytes.len());
    lemma_open_state(bytes, bytes.len());
}

proof fn lemma_decompose(x: Seq<u8>, j: nat, k: nat)
    requires
        j <= x.len(),
        state_at(x, j) == start_state(),
        k <= x.len() - j,
    ensures
        state_at(x, j + k) == state_at(x.skip(j as int), k),
        state_at(x.skip(j as int), k).depth > 0 ==> open_at(x, j + k) == j + open_at(x.skip(j as int), k),
        frame_bounds(x, j + k) =~= frame_bounds(x, j) + shifted(frame_bounds(x.skip(j as int), k), j),
    decreases k,
{
    let y = x.skip(j as int);
    if k == 0 {
        assert(shifted(frame_bounds(y, 0), j) =~= Seq::<(nat, nat)>::empty());
    } else {
        let m = (k - 1) as nat;
        lemma_decompose(x, j, m);
        lemma_state_shape(y, m);
        assert(y[m as int] == x[(j + m) as int]);
        let fy = frame_bounds(y, m);
        if closes_at(y, m) {
            assert(shifted(fy.push((open_at(y, m), k)), j) =~= shifted(fy, j).push(((open_at(y, m) + j) as nat, (k + j) as nat)));
        }
    }
}

proof fn lemma_split_at(x: Seq<u8>, j: nat)
    requires
        j <= x.len(),
        state_at(x, j) == start_state(),
    ensures
        consumed(x) == j + consumed(x.skip(j as int)),
        frames_of(x) =~= frames_within(x, j) + frames_of(x.skip(j as int)),
{
    let y = x.skip(j as int);
    let k = (x.len() - j) as nat;
    lemma_decompose(x, j, k);
    assert(j + k == x.len());
    lemma_bounds_sound(y, y.len());
    let fy = frame_bounds(y, y.len());
    let sx = shifted(fy, j);
    assert(sx.map_values(|p: (nat, nat)| x.subrange(p.0 as int, p.1 as int))
        =~= fy.map_values(|p: (nat, nat)| y.subrange(p.0 as int, p.1 as int))) by {
        assert forall|i: int| 0 <= i < fy.len() implies x.subrange((#[trigger] sx[i]).0 as int, sx[i].1 as int)
            =~= y.subrange(fy[i].0 as int, fy[i].1 as int) by {
            assert(fy[i].1 <= y.len());
        }
    }
}

proof fn lemma_last_bound_closes(bytes: Seq<u8>, n: nat)
    requires
        0 < n <= bytes.len(),
        frame_bounds(bytes, n).len() > 0,
        frame_bounds(bytes, n)[frame_bounds(bytes, n).len() - 1].1 == n,
    ensures
        closes_at(bytes, (n - 1) as nat),
{
    let m = (n - 1) as nat;
    lemma_bounds_sound(bytes, m);
    if !closes_at(bytes, m) {
        let fb = frame_bounds(bytes, m);
        assert(fb[fb.len() - 1].1 <= m);
    }
}

/// No frame is lost between reads: when the buffer holds what a stream
/// left over, the frames that the next read yields are exactly those that
/// the whole stream gained by that read, and the buffer again holds what
/// the whole stream leaves over. This holds for every read but one that is
/// made of whole objects while part of an object is kept (there the buffer
/// drops the part), and as long as no kept part outgrows `MAX_PENDING`.
pub proof fn law_reads_lose_no_frame(stream: Seq<u8>, chunk: Seq<u8>)
    requires
        !tiles(chunk) || consumed(stream) == stream.len(),
        (stream + chunk).skip(consumed(stream + chunk) as int).len() <= MAX_PENDING,
    ensures
        ({
            let held = stream.skip(consumed(stream) as int);
            let (frames, kept) = after_chunk(held, chunk);
            &&& frames_of(stream) + frames =~= frames_of(stream + chunk)
            &&& kept =~= (stream + chunk).skip(consumed(stream + chunk) as int)
        }),
{
    let u = consumed(stream);
    let held = stream.skip(u as int);
    let x = stream + chunk;
    lemma_state_at_consumed(stream);
    lemma_prefix(stream, chunk, u);
    lemma_split_at(stream, u);
    law_frames_lie_in_order(held);
    assert(consumed(held) == 0);
    let fh = frame_bounds(held, held.len());
    if fh.len() > 0 {
        assert(fh[0].0 < fh[0].1 <= consumed(held));
    }
    assert(frames_of(held) =~= Seq::<Seq<u8>>::empty());
    lemma_bounds_sound(stream, u);
    let fs = frame_bounds(stream, u);
    assert(frames_within(x, u) =~= frames_within(stream, u)) by {
        assert forall|i: int| 0 <= i < fs.len() implies x.subrange((#[trigger] fs[i]).0 as int, fs[i].1 as int)
            =~= stream.subrange(fs[i].0 as int, fs[i].1 as int) by {
        }
    }
    lemma_split_at(x, u);
    assert(x.skip(u as int) =~= held + chunk);
    let hc = held + chunk;
    assert(frames_of(stream) =~= frames_within(stream, u));
    assert(frames_of(x) =~= frames_of(stream) + frames_of(hc));
    assert(consumed(x) == u + consumed(hc));
    lemma_state_at_consumed(hc);
    assert(x.skip(consumed(x) as int) =~= hc.skip(consumed(hc) as int)) by {
        assert forall|i: int| 0 <= i < hc.len() - consumed(hc) implies x.skip(consumed(x) as int)[i]
            == hc.skip(consumed(hc) as int)[i] by {
            assert(x[u + consumed(hc) + i] == hc[consumed(hc) + i]);
        }
    }
    if tiles(chunk) {
        assert(held =~= Seq::<u8>::empty());
        assert(held + chunk =~= chunk);
        lemma_last_bound_closes(chunk, chunk.len());
        lemma_state_shape(chunk, chunk.len());
        assert(consumed(chunk) == chunk.len());
        assert(chunk.skip(chunk.len() as int) =~= Seq::<u8>::empty());
    }
}

/// One character of a JSON string as written: a byte that needs no escape,
/// or a backslash followed by the escaped byte.
pub enum JsonChar {
    Plain(u8),
    Escaped(u8),
}

/// A JSON value as written, with the whitespace around it.
pub enum Json {
    /// A number, `true`, `false` or `null`.
    Literal(Seq<u8>),
    Text(Seq<JsonChar>),
    /// The items, and the whitespace before `]`.
    Array(Seq<Json>, Seq<u8>),
    /// The members, each as whitespace before the key, the key, whitespace
    /// before `:`, and the value; then the whitespace before `}`.
    Object(Seq<(Seq<u8>, Seq<JsonChar>, Seq<u8>, Json)>, Seq<u8>),
    /// A value with whitespace before and after it.
    Spaced(Seq<u8>, Box<Json>, Seq<u8>),
}

pub open spec fn is_whitespace(b: u8) -> bool {
    b == 32 || b == 9 || b == 10 || b == 13
}

pub open spec fn all_whitespace(s: Seq<u8>) -> bool {
    forall|i: int| 0 <= i < s.len() ==> is_whitespace(#[trigger] s[i])
}

/// The bytes of numbers and of `true`, `false`, `null`.
pub open spec fn is_literal_byte(b: u8) -> bool {
    (48 <= b && b <= 57) || b == 43 || b == 45 || b == 46 || b == 69 || b == 101 || b == 116 || b == 114
        || b == 117 || b == 102 || b == 97 || b == 108 || b == 115 || b == 110
}

pub open spec fn valid_char(c: JsonChar) -> bool {
    match c {
        JsonChar::Plain(b) => b >= 32 && b != 34 && b != 92,
        JsonChar::Escaped(b) => b == 34 || b == 92 || b == 47 || b == 98 || b == 102 || b == 110 || b == 114
            || b == 116 || b == 117,
    }
}

pub open spec fn valid_text(t: Seq<JsonChar>) -> bool {
    forall|i: int| 0 <= i < t.len() ==> valid_char(#[trigger] t[i])
}

pub open spec fn char_bytes(c: JsonChar) -> Seq<u8> {
    match c {
        JsonChar::Plain(b) => seq![b],
        JsonChar::Escaped(b) => seq![92u8, b],
    }
}

pub open spec fn text_body(t: Seq<JsonChar>) -> Seq<u8>
    decreases t.len(),
{
    if t.len() == 0 {
        Seq::empty()
    } else {
        text_body(t.drop_last()) + char_bytes(t.last())
    }
}

pub open spec fn render_text(t: Seq<JsonChar>) -> Seq<u8> {
    seq![34u8] + text_body(t) + seq![34u8]
}

/// The bytes of a value.
pub open spec fn render(v: Json) -> Seq<u8>
    decreases v, 0nat,
{
    match v {
        Json::Literal(b) => b,
        Json::Text(t) => render_text(t),
        Json::Array(items, ws) => seq![91u8] + render_items(items, items.len()) + ws + seq![93u8],
        Json::Object(members, ws) => seq![123u8] + render_members(members, members.len()) + ws + seq![125u8],
        Json::Spaced(a, inner, z) => a + render(*inner) + z,
    }
}

/// The first `n` items, separated by commas.
pub open spec fn render_items(items: Seq<Json>, n: nat) -> Seq<u8>
    decreases items, n,
{
    if n == 0 || n > items.len() {
        Seq::empty()
    } else if n == 1 {
        render(items[0])
    } else {
        render_items(items, (n - 1) as nat) + seq![44u8] + render(items[n - 1])
    }
}

pub open spec fn render_member(m: (Seq<u8>, Seq<JsonChar>, Seq<u8>, Json)) -> Seq<u8>
    decreases m, 1nat,
{
    m.0 + render_text(m.1) + m.2 + seq![58u8] + render(m.3)
}

/// The first `n` members, separated by commas.
pub open spec fn render_members(members: Seq<(Seq<u8>, Seq<JsonChar>, Seq<u8>, Json)>, n: nat) -> Seq<u8>
    decreases members, n,
{
    if n == 0 || n > members.len() {
        Seq::empty()
    } else if n == 1 {
        render_member(members[0])
    } else {
        render_members(members, (n - 1) as nat) + seq![44u8] + render_member(members[n - 1])
    }
}

/// A value that follows the JSON grammar.
pub open spec fn valid(v: Json) -> bool
    decreases v, 0nat,
{
    match v {
        Json::Literal(b) => b.len() > 0 && forall|i: int| 0 <= i < b.len() ==> is_literal_byte(#[trigger] b[i]),
        Json::Text(t) => valid_text(t),
        Json::Array(items, ws) => all_whitespace(ws) && valid_items(items, items.len()),
        Json::Object(members, ws) => all_whitespace(ws) && valid_members(members, members.len()),
        Json::Spaced(a, inner, z) => all_whitespace(a) && all_whitespace(z) && valid(*inner),
    }
}

pub open spec fn valid_items(items: Seq<Json>, n: nat) -> bool
    decreases items, n,
{
    if n == 0 || n > items.len() {
        true
    } else {
        valid_items(items, (n - 1) as nat) && valid(items[n - 1])
    }
}

pub open spec fn valid_member(m: (Seq<u8>, Seq<JsonChar>, Seq<u8>, Json)) -> bool
    decreases m, 1nat,
{
    all_whitespace(m.0) && valid_text(m.1) && all_whitespace(m.2) && valid(m.3)
}

pub open spec fn valid_members(members: Seq<(Seq<u8>, Seq<JsonChar>, Seq<u8>, Json)>, n: nat) -> bool
    decreases members, n,
{
    if n == 0 || n > members.len() {
        true
    } else {
        valid_members(members, (n - 1) as nat) && valid_member(members[n - 1])
    }
}

/// The scan state after `bytes`, from state `s`.
pub open spec fn run(s: ScanState, bytes: Seq<u8>) -> ScanState
    decreases bytes.len(),
{
    if bytes.len() == 0 {
        s
    } else {
        scan_byte(run(s, bytes.drop_last()), bytes.last())
    }
}

/// Scanning `bytes` from `s` never goes shallower than depth `d`.
pub open spec fn stays(s: ScanState, bytes: Seq<u8>, d: nat) -> bool {
    forall|k: int| 0 <= k <= bytes.len() ==> #[trigger] run(s, bytes.take(k)).depth >= d
}

/// Scanning `bytes` from `s` comes back to `s` and never goes shallower
/// than `s`.
pub open spec fn neutral(s: ScanState, bytes: Seq<u8>) -> bool {
    run(s, bytes) == s && stays(s, bytes, s.depth)
}

pub open spec fn is_outside_value(s: ScanState) -> bool {
    s.depth >= 1 && !s.in_string && !s.escaped
}

proof fn lemma_run_concat(s: ScanState, a: Seq<u8>, b: Seq<u8>)
    ensures
        run(s, a + b) == run(run(s, a), b),
    decreases b.len(),
{
    if b.len() == 0 {
        assert(a + b =~= a);
    } else {
        assert((a + b).drop_last() =~= a + b.drop_last());
        lemma_run_concat(s, a, b.drop_last());
    }
}

proof fn lemma_state_is_run(x: Seq<u8>, n: nat)
    requires
        n <= x.len(),
    ensures
        state_at(x, n) == run(start_state(), x.take(n as int)),
    decreases n,
{
    if n > 0 {
        lemma_state_is_run(x, (n - 1) as nat);
        assert(x.take(n as int).drop_last() =~= x.take(n - 1));
    }
}

proof fn lemma_run_one(s: ScanState, b: u8)
    ensures
        run(s, seq![b]) == scan_byte(s, b),
        stays(s, seq![b], if s.depth <= scan_byte(s, b).depth { s.depth } else { scan_byte(s, b).depth }),
{
    let one = seq![b];
    assert(one.drop_last() =~= Seq::<u8>::empty());
    assert(run(s, Seq::<u8>::empty()) == s);
    assert forall|k: int| 0 <= k <= one.len() implies #[trigger] run(s, one.take(k)).depth >= (if s.depth
        <= scan_byte(s, b).depth {
        s.depth
    } else {
        scan_byte(s, b).depth
    }) by {
        if k == 0 {
            assert(one.take(k) =~= Seq::<u8>::empty());
        } else {
            assert(one.take(k) =~= one);
        }
    }
}

proof fn lemma_stays_concat(s: ScanState, a: Seq<u8>, b: Seq<u8>, d: nat)
    requires
        stays(s, a, d),
        stays(run(s, a), b, d),
    ensures
        stays(s, a + b, d),
{
    assert forall|k: int| 0 <= k <= (a + b).len() implies #[trigger] run(s, (a + b).take(k)).depth >= d by {
        if k <= a.len() {
            assert((a + b).take(k) =~= a.take(k));
        } else {
            assert((a + b).take(k) =~= a + b.take(k - a.len()));
            lemma_run_concat(s, a, b.take(k - a.len()));
            assert(run(run(s, a), b.take(k - a.len())).depth >= d);
        }
    }
}

proof fn lemma_neutral_concat(s: ScanState, a: Seq<u8>, b: Seq<u8>)
    requires
        neutral(s, a),
        neutral(s, b),
    ensures
        neutral(s, a + b),
{
    lemma_run_concat(s, a, b);
    lemma_stays_concat(s, a, b, s.depth);
}

/// Bytes that are not `"`, `{` or `}` leave a scan outside strings as it is.
proof fn lemma_plain_bytes(s: ScanState, bytes: Seq<u8>)
    requires
        !s.in_string,
        forall|i: int| 0 <= i < bytes.len() ==> #[trigger] bytes[i] != 34 && bytes[i] != 123 && bytes[i] != 125,
    ensures
        neutral(s, bytes),
    decreases bytes.len(),
{
    if bytes.len() > 0 {
        lemma_plain_bytes(s, bytes.drop_last());
    }
    assert forall|k: int| 0 <= k <= bytes.len() implies #[trigger] run(s, bytes.take(k)).depth >= s.depth by {
        if k < bytes.len() {
            assert(bytes.take(k) =~= bytes.drop_last().take(k));
        } else {
            assert(bytes.take(k) =~= bytes);
        }
    }
}

proof fn lemma_whitespace(s: ScanState, ws: Seq<u8>)
    requires
        !s.in_string,
        all_whitespace(ws),
    ensures
        neutral(s, ws),
{
    assert forall|i: int| 0 <= i < ws.len() implies #[trigger] ws[i] != 34 && ws[i] != 123 && ws[i] != 125 by {
        assert(is_whitespace(ws[i]));
    }
    lemma_plain_bytes(s, ws);
}

proof fn lemma_one_byte(s: ScanState, b: u8)
    requires
        !s.in_string,
        b != 34 && b != 123 && b != 125,
    ensures
        neutral(s, seq![b]),
{
    lemma_plain_bytes(s, seq![b]);
}

/// Inside a string, every character keeps the scan inside the string at
/// the same depth: braces and escaped quotes in strings count for nothing.
proof fn lemma_text_body(s: ScanState, t: Seq<JsonChar>)
    requires
        s.in_string,
        !s.escaped,
        valid_text(t),
    ensures
        neutral(s, text_body(t)),
    decreases t.len(),
{
    let body = text_body(t);
    if t.len() > 0 {
        let front = t.drop_last();
        assert(valid_text(front)) by {
            assert forall|i: int| 0 <= i < front.len() implies valid_char(#[trigger] front[i]) by {
                assert(front[i] == t[i]);
            }
        }
        lemma_text_body(s, front);
        let c = t.last();
        assert(valid_char(t[t.len() - 1]));
        let cb = char_bytes(c);
        match c {
            JsonChar::Plain(b) => {
                lemma_run_one(s, b);
            },
            JsonChar::Escaped(b) => {
                let esc = ScanState { escaped: true, ..s };
                lemma_run_one(s, 92u8);
                lemma_run_one(esc, b);
                assert(cb =~= seq![92u8] + seq![b]);
                lemma_run_concat(s, seq![92u8], seq![b]);
                lemma_stays_concat(s, seq![92u8], seq![b], s.depth);
            },
        }
        assert(neutral(s, cb));
        lemma_neutral_concat(s, text_body(front), cb);
    } else {
        assert(body =~= Seq::<u8>::empty());
        assert forall|k: int| 0 <= k <= body.len() implies #[trigger] run(s, body.take(k)).depth >= s.depth by {
            assert(body.take(k) =~= Seq::<u8>::empty());
        }
    }
}

proof fn lemma_text(s: ScanState, t: Seq<JsonChar>)
    requires
        is_outside_value(s),
        valid_text(t),
    ensures
        neutral(s, render_text(t)),
{
    let inside = ScanState { in_string: true, ..s };
    let open = seq![34u8];
    lemma_run_one(s, 34u8);
    lemma_text_body(inside, t);
    lemma_run_one(inside, 34u8);
    let body = text_body(t);
    lemma_run_concat(s, open, body);
    lemma_stays_concat(s, open, body, s.depth);
    lemma_run_concat(s, open + body, open);
    lemma_stays_concat(s, open + body, open, s.depth);
}

/// The scan state one object deeper.
pub open spec fn deeper(s: ScanState) -> ScanState {
    ScanState { depth: s.depth + 1, ..s }
}

/// An object or array opened and closed around `inner`.
proof fn lemma_bracketed(s: ScanState, opener: u8, closer: u8, inner: Seq<u8>)
    requires
        !s.in_string,
        !s.escaped,
        (opener == 123 && closer == 125 && neutral(deeper(s), inner))
            || (opener == 91 && closer == 93 && s.depth >= 1 && neutral(s, inner)),
    ensures
        neutral(s, seq![opener] + inner + seq![closer]),
        opener == 123 ==> stays(deeper(s), inner, s.depth + 1),
        opener == 123 ==> run(s, seq![opener]) == deeper(s),
{
    let o = seq![opener];
    let c = seq![closer];
    lemma_run_one(s, opener);
    let s1 = run(s, o);
    lemma_run_one(s1, closer);
    assert(stays(s1, inner, s.depth)) by {
        assert forall|k: int| 0 <= k <= inner.len() implies #[trigger] run(s1, inner.take(k)).depth >= s.depth by {
            assert(run(s1, inner.take(k)).depth >= s1.depth);
        }
    }
    lemma_run_concat(s, o, inner);
    lemma_stays_concat(s, o, inner, s.depth);
    lemma_run_concat(s, o + inner, c);
    lemma_stays_concat(s, o + inner, c, s.depth);
}

proof fn lemma_value(v: Json, s: ScanState)
    requires
        valid(v),
        is_outside_value(s),
    ensures
        neutral(s, render(v)),
    decreases v, 0nat,
{
    match v {
        Json::Literal(b) => {
            assert forall|i: int| 0 <= i < b.len() implies #[trigger] b[i] != 34 && b[i] != 123 && b[i] != 125 by {
                assert(is_literal_byte(b[i]));
            }
            lemma_plain_bytes(s, b);
            assert(render(v) == b);
        },
        Json::Text(t) => {
            lemma_text(s, t);
        },
        Json::Array(items, ws) => {
            lemma_items(items, items.len(), s);
            lemma_whitespace(s, ws);
            lemma_neutral_concat(s, render_items(items, items.len()), ws);
            lemma_bracketed(s, 91u8, 93u8, render_items(items, items.len()) + ws);
            assert(render(v) =~= seq![91u8] + (render_items(items, items.len()) + ws) + seq![93u8]);
        },
        Json::Object(members, ws) => {
            let s1 = ScanState { depth: s.depth + 1, ..s };
            lemma_members(members, members.len(), s1);
            lemma_whitespace(s1, ws);
            lemma_neutral_concat(s1, render_members(members, members.len()), ws);
            lemma_bracketed(s, 123u8, 125u8, render_members(members, members.len()) + ws);
            assert(render(v) =~= seq![123u8] + (render_members(members, members.len()) + ws) + seq![125u8]);
        },
        Json::Spaced(a, inner, z) => {
            lemma_whitespace(s, a);
            lemma_value(*inner, s);
            lemma_whitespace(s, z);
            lemma_neutral_concat(s, a, render(*inner));
            lemma_neutral_concat(s, a + render(*inner), z);
        },
    }
}

proof fn lemma_items(items: Seq<Json>, n: nat, s: ScanState)
    requires
        valid_items(items, n),
        is_outside_value(s),
    ensures
        neutral(s, render_items(items, n)),
    decreases items, n,
{
    if n == 0 || n > items.len() {
        let e = render_items(items, n);
        assert forall|k: int| 0 <= k <= e.len() implies #[trigger] run(s, e.take(k)).depth >= s.depth by {
            assert(e.take(k) =~= Seq::<u8>::empty());
        }
    } else if n == 1 {
        lemma_value(items[0], s);
    } else {
        lemma_items(items, (n - 1) as nat, s);
        lemma_value(items[n - 1], s);
        lemma_one_byte(s, 44u8);
        lemma_neutral_concat(s, render_items(items, (n - 1) as nat), seq![44u8]);
        lemma_neutral_concat(s, render_items(items, (n - 1) as nat) + seq![44u8], render(items[n - 1]));
    }
}

proof fn lemma_member(m: (Seq<u8>, Seq<JsonChar>, Seq<u8>, Json), s: ScanState)
    requires
        valid_member(m),
        is_outside_value(s),
    ensures
        neutral(s, render_member(m)),
    decreases m, 1nat,
{
    lemma_whitespace(s, m.0);
    lemma_text(s, m.1);
    lemma_whitespace(s, m.2);
    lemma_one_byte(s, 58u8);
    lemma_value(m.3, s);
    lemma_neutral_concat(s, m.0, render_text(m.1));
    lemma_neutral_concat(s, m.0 + render_text(m.1), m.2);
    lemma_neutral_concat(s, m.0 + render_text(m.1) + m.2, seq![58u8]);
    lemma_neutral_concat(s, m.0 + render_text(m.1) + m.2 + seq![58u8], render(m.3));
}

proof fn lemma_members(members: Seq<(Seq<u8>, Seq<JsonChar>, Seq<u8>, Json)>, n: nat, s: ScanState)
    requires
        valid_members(members, n),
        is_outside_value(s),
    ensures
        neutral(s, render_members(members, n)),
    decreases members, n,
{
    if n == 0 || n > members.len() {
        let e = render_members(members, n);
        assert forall|k: int| 0 <= k <= e.len() implies #[trigger] run(s, e.take(k)).depth >= s.depth by {
            assert(e.take(k) =~= Seq::<u8>::empty());
        }
    } else if n == 1 {
        lemma_member(members[0], s);
    } else {
        lemma_members(members, (n - 1) as nat, s);
        lemma_member(members[n - 1], s);
        lemma_one_byte(s, 44u8);
        lemma_neutral_concat(s, render_members(members, (n - 1) as nat), seq![44u8]);
        lemma_neutral_concat(s, render_members(members, (n - 1) as nat) + seq![44u8], render_member(members[n - 1]));
    }
}

proof fn lemma_top_object(v: Json)
    requires
        valid(v),
        v is Object,
    ensures
        is_object(render(v)),
{
    let members = v->Object_0;
    let ws = v->Object_1;
    let s0 = start_state();
    let s1 = ScanState { depth: 1, ..s0 };
    let inner = render_members(members, members.len()) + ws;
    lemma_members(members, members.len(), s1);
    lemma_whitespace(s1, ws);
    lemma_neutral_concat(s1, render_members(members, members.len()), ws);
    lemma_bracketed(s0, 123u8, 125u8, inner);
    let o = render(v);
    assert(o =~= seq![123u8] + inner + seq![125u8]);
    lemma_state_is_run(o, o.len());
    assert(o.take(o.len() as int) =~= o);
    assert forall|k: nat| 0 < k < o.len() implies #[trigger] state_at(o, k).depth > 0 by {
        lemma_state_is_run(o, k);
        assert(o.take(k as int) =~= seq![123u8] + inner.take(k - 1));
        lemma_run_concat(s0, seq![123u8], inner.take(k - 1));
        assert(run(s1, inner.take(k - 1)).depth >= 1);
    }
}

/// Any JSON objects, written one after the other, come out of the buffer
/// each whole and in order, and the buffer is then done with; in
/// particular one object is one frame. Braces, quotes and backslashes
/// inside strings, nested objects and arrays, and whitespace anywhere the
/// grammar allows it do not cut or join frames.
pub proof fn law_json_objects_come_out_whole(objects: Seq<Json>)
    requires
        forall|i: int| 0 <= i < objects.len() ==> valid(#[trigger] objects[i]) && objects[i] is Object,
    ensures
        frames_of(concat_all(objects.map_values(|v: Json| render(v)))) =~= objects.map_values(|v: Json| render(v)),
        consumed(concat_all(objects.map_values(|v: Json| render(v)))) == concat_all(
            objects.map_values(|v: Json| render(v)),
        ).len(),
        objects.len() == 1 ==> frames_of(render(objects[0])) =~= seq![render(objects[0])],
{
    let rendered = objects.map_values(|v: Json| render(v));
    assert forall|i: int| 0 <= i < rendered.len() implies is_object(#[trigger] rendered[i]) by {
        lemma_top_object(objects[i]);
    }
    law_concatenated_objects_come_out(rendered);
    if objects.len() == 1 {
        assert(concat_all(rendered) =~= render(objects[0])) by {
            assert(rendered.drop_last() =~= Seq::<Seq<u8>>::empty());
            assert(concat_all(rendered.drop_last()) =~= Seq::<u8>::empty());
        }
    }
}

} // verus!
