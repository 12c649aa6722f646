//! Stride partitioning of the port space `[1, 65535]` among a fixed number
//! of workers: worker `o` of `w` owns every port `p` with `(p - 1) % w == o`.
use vstd::prelude::*;
use vstd::arithmetic::div_mod::lemma_fundamental_div_mod;

verus! {

/// The largest valid TCP port; port 0 is never scanned.
pub const MAX_PORT: u16 = 65535;

/// `port` is a valid TCP port, in `[1, 65535]`.
pub open spec fn is_port(port: int) -> bool {
    1 <= port <= MAX_PORT
}

/// `port` belongs to the residue class of worker `offset` out of `stride` workers.
pub open spec fn in_class(port: int, offset: int, stride: int) -> bool {
    is_port(port) && (port - 1) % stride == offset
}

/// Two ports of one class are at least a stride apart.
proof fn lemma_class_gap(port: int, x: int, offset: int, stride: int)
    requires
        stride >= 1,
        in_class(port, offset, stride),
        in_class(x, offset, stride),
        port < x,
    ensures
        x >= port + stride,
{
    lemma_fundamental_div_mod(port - 1, stride);
    lemma_fundamental_div_mod(x - 1, stride);
    let qp = (port - 1) / stride;
    let qx = (x - 1) / stride;
    assert(qx - qp >= 1) by (nonlinear_arith)
        requires
            x - 1 == stride * qx + offset,
            port - 1 == stride * qp + offset,
            x - port > 0,
            stride >= 1,
    ;
    assert(x - port >= stride) by (nonlinear_arith)
        requires
            x - 1 == stride * qx + offset,
            port - 1 == stride * qp + offset,
            qx - qp >= 1,
            stride >= 1,
    ;
}

/// The least port of a class is `offset + 1`.
proof fn lemma_class_floor(x: int, offset: int, stride: int)
    requires
        stride >= 1,
        in_class(x, offset, stride),
    ensures
        offset + 1 <= x,
{
    lemma_fundamental_div_mod(x - 1, stride);
    let q = (x - 1) / stride;
    assert(q >= 0) by (nonlinear_arith)
        requires
            x - 1 == stride * q + offset,
            0 <= offset < stride,
            x - 1 >= 0,
    ;
    assert(stride * q >= 0) by (nonlinear_arith)
        requires
            q >= 0,
            stride >= 1,
    ;
}

/// Moving a stride up keeps a port in its class.
proof fn lemma_class_step(port: int, offset: int, stride: int)
    requires
        stride >= 1,
        in_class(port, offset, stride),
        port + stride <= MAX_PORT,
    ensures
        in_class(port + stride, offset, stride),
{
    lemma_fundamental_div_mod(port - 1, stride);
    lemma_fundamental_div_mod(port - 1 + stride, stride);
    let q = (port - 1) / stride;
    let q2 = (port - 1 + stride) / stride;
    let r2 = (port - 1 + stride) % stride;
    assert(q2 - q - 1 == 0 && r2 == offset) by (nonlinear_arith)
        requires
            port - 1 == stride * q + offset,
            port - 1 + stride == stride * q2 + r2,
            0 <= offset < stride,
            0 <= r2 < stride,
    ;
}

/// Partition law: for every worker count `w >= 1`, each valid port lies in
/// the class of exactly one worker offset in `[0, w)`, and no class holds a
/// port outside `[1, 65535]`.
pub proof fn lemma_classes_partition(w: int)
    requires
        w >= 1,
    ensures
        forall|port: int| is_port(port) ==> exists|o: int| 0 <= o < w && #[trigger] in_class(port, o, w),
        forall|port: int, o1: int, o2: int|
            #[trigger] in_class(port, o1, w) && #[trigger] in_class(port, o2, w) ==> o1 == o2,
        forall|port: int, o: int| #[trigger] in_class(port, o, w) ==> is_port(port) && 0 <= o < w,
{
    assert forall|port: int| is_port(port) implies exists|o: int| 0 <= o < w && #[trigger] in_class(port, o, w) by {
        let o = (port - 1) % w;
        assert(in_class(port, o, w));
    }
}

/// One worker's share of the scan: the ports `offset + 1`, `offset + 1 + stride`, ...
/// up to 65535.
#[derive(Clone, Copy, Debug, PartialEq, Eq, Structural)]
pub struct ScanTask {
    pub offset: u16,
    pub stride: u16,
}

impl ScanTask {
    /// The offset lies below the stride, so the class is not empty.
    pub open spec fn wf(&self) -> bool {
        1 <= self.stride && self.offset < self.stride
    }

    /// `port` lies in the residue class that this worker owns.
    pub open spec fn covers(&self, port: int) -> bool {
        in_class(port, self.offset as int, self.stride as int)
    }

    pub fn new(offset: u16, stride: u16) -> (t: ScanTask)
        requires
            offset < stride,
        ensures
            t.offset == offset,
            t.stride == stride,
            t.wf(),
    {
        ScanTask { offset, stride }
    }

    /// The first port the task probes.
    pub fn first_port(&self) -> (p: u16)
        requires
            self.wf(),
        ensures
            p == self.offset + 1,
            self.covers(p as int),
            forall|x: int| #[trigger] self.covers(x) ==> p <= x,
    {
        assert(self.covers(self.offset + 1)) by {
            vstd::arithmetic::div_mod::lemma_small_mod(self.offset as nat, self.stride as nat);
        }
        assert forall|x: int| #[trigger] self.covers(x) implies self.offset + 1 <= x by {
            lemma_class_floor(x, self.offset as int, self.stride as int);
        }
        self.offset + 1
    }

    /// The port probed after `port`, or `None` where `port` was the task's last.
    pub fn next_after(&self, port: u16) -> (r: Option<u16>)
        requires
            self.wf(),
            self.covers(port as int),
        ensures
            match r {
                Some(q) => q == port + self.stride && self.covers(q as int) && forall|x: int|
                    port < x < q ==> !#[trigger] self.covers(x),
                None => port + self.stride > MAX_PORT && forall|x: int|
                    port < x ==> !#[trigger] self.covers(x),
            },
    {
        if MAX_PORT - port < self.stride {
            assert forall|x: int| port < x implies !#[trigger] self.covers(x) by {
                if self.covers(x) {
                    lemma_class_gap(port as int, x, self.offset as int, self.stride as int);
                }
            }
            None
        } else {
            proof {
                lemma_class_step(port as int, self.offset as int, self.stride as int);
                assert forall|x: int| port < x < port + self.stride implies !#[trigger] self.covers(x) by {
                    if self.covers(x) {
                        lemma_class_gap(port as int, x, self.offset as int, self.stride as int);
                    }
                }
            }
            Some(port + self.stride)
        }
    }

    /// Every port the task probes, in the order probed: ascending, each once.
    pub fn ports(&self) -> (v: Vec<u16>)
        requires
            self.wf(),
        ensures
            forall|i: int| 0 <= i < v@.len() ==> #[trigger] self.covers(v@[i] as int),
            forall|i: int, j: int| 0 <= i < j < v@.len() ==> v@[i] < v@[j],
            forall|x: int| #[trigger] self.covers(x) ==> v@.contains(x as u16),
    {
        let mut v: Vec<u16> = Vec::new();
        let mut port = self.first_port();
        loop
            invariant
                self.wf(),
                self.covers(port as int),
                forall|i: int| 0 <= i < v@.len() ==> #[trigger] self.covers(v@[i] as int),
                forall|i: int| 0 <= i < v@.len() ==> #[trigger] v@[i] < port,
                forall|i: int, j: int| 0 <= i < j < v@.len() ==> v@[i] < v@[j],
                forall|x: int| #[trigger] self.covers(x) && x < port ==> v@.contains(x as u16),
            ensures
                forall|i: int| 0 <= i < v@.len() ==> #[trigger] self.covers(v@[i] as int),
                forall|i: int, j: int| 0 <= i < j < v@.len() ==> v@[i] < v@[j],
                forall|x: int| #[trigger] self.covers(x) ==> v@.contains(x as u16),
            decreases MAX_PORT - port,
        {
            let ghost before = v@;
            v.push(port);
            assert(v@[v@.len() - 1] == port);
            match self.next_after(port) {
                Some(q) => {
                    assert forall|x: int| #[trigger] self.covers(x) && x < q implies v@.contains(x as u16) by {
                        if x == port {
                            assert(v@[v@.len() - 1] == x as u16);
                        } else if x < port {
                            assert(before.contains(x as u16));
                            let k = choose|k: int| 0 <= k < before.len() && before[k] == x as u16;
                            assert(v@[k] == x as u16);
                        }
                    }
                    port = q;
                }
                None => {
                    assert forall|x: int| #[trigger] self.covers(x) implies v@.contains(x as u16) by {
                        if x == port {
                            assert(v@[v@.len() - 1] == x as u16);
                        } else if x < port {
                            assert(before.contains(x as u16));
                            let k = choose|k: int| 0 <= k < before.len() && before[k] == x as u16;
                            assert(v@[k] == x as u16);
                        }
                    }
                    return v;
                }
            }
        }
    }
}

/// The dispatcher's plan: one task per worker, worker `i` taking offset `i`,
/// all with the worker count as stride. A worker count of zero plans no work.
pub fn plan_tasks(workers: u16) -> (tasks: Vec<ScanTask>)
    ensures
        tasks@.len() == workers,
        forall|i: int| 0 <= i < tasks@.len() ==> (#[trigger] tasks@[i]).offset == i
            && tasks@[i].stride == workers && tasks@[i].wf(),
{
    let mut tasks: Vec<ScanTask> = Vec::new();
    let mut i: u16 = 0;
    while i < workers
        invariant
            i <= workers,
            tasks@.len() == i,
            forall|k: int| 0 <= k < tasks@.len() ==> (#[trigger] tasks@[k]).offset == k
                && tasks@[k].stride == workers && tasks@[k].wf(),
        decreases workers - i,
    {
        tasks.push(ScanTask::new(i, workers));
        i = i + 1;
    }
    tasks
}

} // verus!
