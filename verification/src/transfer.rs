//! Planning of uploads in parts and of resumable downloads.
use crate::listing::MultipartUploadEntry;
use vstd::prelude::*;
use vstd::string::*;

verus! {

/// The size of a part, and of a download chunk between progress reports.
pub const BUFFER_SIZE: u64 = 5 * 1024 * 1024;

/// The most parts one multipart upload may have.
pub const S3_PARTS_LIMIT: u64 = 1000;

/// `a / b` rounded up.
pub open spec fn ceil_div(a: int, b: int) -> int {
    (a + b - 1) / b
}

/// The size of each part of an upload of `size` bytes: the usual part
/// size, or as much as keeps the upload within the parts limit.
pub open spec fn spec_chunk_size(size: u64) -> int {
    if size > BUFFER_SIZE * S3_PARTS_LIMIT {
        ceil_div(size as int, S3_PARTS_LIMIT as int)
    } else {
        BUFFER_SIZE as int
    }
}

/// The number of parts of an upload of `size` bytes.
pub open spec fn spec_chunk_count(size: u64) -> int {
    ceil_div(size as int, spec_chunk_size(size))
}

/// How a file of a given size is cut into parts.
#[derive(Debug, Clone, Copy)]
pub struct UploadPlan {
    pub size: u64,
    pub chunk_size: u64,
    pub chunk_count: u64,
}

impl UploadPlan {
    /// The plan for a file of `size` bytes.
    pub fn new(size: u64) -> (r: UploadPlan)
        ensures
            r.size == size,
            r.chunk_size == spec_chunk_size(size),
            r.chunk_count == spec_chunk_count(size),
    {
        let chunk_size = if size > BUFFER_SIZE * S3_PARTS_LIMIT {
            size / S3_PARTS_LIMIT + if size % S3_PARTS_LIMIT != 0 {
                1
            } else {
                0
            }
        } else {
            BUFFER_SIZE
        };
        proof {
            lemma_ceil_div(size as int, S3_PARTS_LIMIT as int);
            assert(chunk_size as int == spec_chunk_size(size));
            assert(chunk_size > 0) by (nonlinear_arith)
                requires
                    chunk_size == spec_chunk_size(size),
                    spec_chunk_size(size) >= 1,
            ;
            lemma_chunk_size_positive(size);
            lemma_ceil_div(size as int, chunk_size as int);
            assert(size / chunk_size <= size / 2) by (nonlinear_arith)
                requires
                    chunk_size >= 2,
            ;
        }
        let chunk_count = size / chunk_size + if size % chunk_size != 0 {
            1
        } else {
            0
        };
        UploadPlan { size, chunk_size, chunk_count }
    }

    /// The plan is the one for its size.
    pub open spec fn wf(&self) -> bool {
        &&& self.chunk_size == spec_chunk_size(self.size)
        &&& self.chunk_count == spec_chunk_count(self.size)
    }

    /// Where part `chunk_index` (from 0) starts in the file.
    pub open spec fn spec_offset(&self, chunk_index: int) -> int {
        chunk_index * self.chunk_size
    }

    /// How many bytes part `chunk_index` (from 0) holds.
    pub open spec fn spec_part_len(&self, chunk_index: int) -> int {
        let rest = self.size - self.spec_offset(chunk_index);
        if self.chunk_size <= rest {
            self.chunk_size as int
        } else {
            rest
        }
    }

    /// The byte range of part `chunk_index` (from 0): its offset and
    /// length.
    pub fn part(&self, chunk_index: u64) -> (r: (u64, u64))
        requires
            self.wf(),
            chunk_index < self.chunk_count,
        ensures
            r.0 == self.spec_offset(chunk_index as int),
            r.1 == self.spec_part_len(chunk_index as int),
    {
        proof {
            lemma_plan_bounds(*self);
            lemma_offset_within(*self, chunk_index as int);
        }
        let offset = chunk_index * self.chunk_size;
        let rest = self.size - offset;
        let len = if self.chunk_size <= rest {
            self.chunk_size
        } else {
            rest
        };
        (offset, len)
    }

    /// The number S3 gives part `chunk_index` (from 0): one more.
    pub fn part_number(&self, chunk_index: u64) -> (r: i32)
        requires
            self.wf(),
            chunk_index < self.chunk_count,
        ensures
            r == chunk_index + 1,
    {
        proof {
            lemma_plan_bounds(*self);
        }
        (chunk_index as i32) + 1
    }

    /// The bytes reported as sent once `parts` parts are done: a whole
    /// part's size for each.
    pub fn progress(&self, parts: u64) -> (r: u64)
        requires
            self.chunk_size * parts <= u64::MAX,
        ensures
            r == self.chunk_size * parts,
    {
        self.chunk_size * parts
    }

    /// The numbers of the parts still to send, in order: those from 1 to
    /// the part count that `uploaded` does not hold.
    pub fn parts_to_upload(&self, uploaded: &Vec<i32>) -> (r: Vec<i32>)
        requires
            self.wf(),
        ensures
            forall|k: int| 0 <= k < r.len() ==> 1 <= #[trigger] r[k] <= self.chunk_count,
            forall|k: int| 0 <= k < r.len() ==> !uploaded@.contains(#[trigger] r[k]),
            forall|k: int, l: int| 0 <= k < l < r.len() ==> r[k] < r[l],
            forall|n: i32|
                1 <= n <= self.chunk_count && !uploaded@.contains(n) ==> r@.contains(n),
    {
        proof {
            lemma_plan_bounds(*self);
        }
        let mut r: Vec<i32> = Vec::new();
        let mut chunk_index: u64 = 0;
        while chunk_index < self.chunk_count
            invariant
                self.wf(),
                self.chunk_count <= S3_PARTS_LIMIT,
                chunk_index <= self.chunk_count,
                forall|k: int| 0 <= k < r.len() ==> 1 <= #[trigger] r[k] <= chunk_index,
                forall|k: int| 0 <= k < r.len() ==> !uploaded@.contains(#[trigger] r[k]),
                forall|k: int, l: int| 0 <= k < l < r.len() ==> r[k] < r[l],
                forall|n: i32| 1 <= n <= chunk_index && !uploaded@.contains(n) ==> r@.contains(n),
            decreases self.chunk_count - chunk_index,
        {
            let part_number = self.part_number(chunk_index);
            let mut already = false;
            let mut i: usize = 0;
            while i < uploaded.len()
                invariant
                    i <= uploaded.len(),
                    already == exists|j: int| 0 <= j < i && uploaded@[j] == part_number,
                decreases uploaded.len() - i,
            {
                if uploaded[i] == part_number {
                    already = true;
                }
                i = i + 1;
            }
            assert(already == uploaded@.contains(part_number)) by {
                if uploaded@.contains(part_number) {
                    let j = choose|j: int| 0 <= j < uploaded.len() && uploaded@[j] == part_number;
                }
            }
            let ghost before = r@;
            if !already {
                r.push(part_number);
                assert(r@[r.len() - 1] == part_number);
            }
            assert forall|n: i32| 1 <= n <= chunk_index + 1 && !uploaded@.contains(n) implies r@.contains(n) by {
                if n <= chunk_index {
                    let k = choose|k: int| 0 <= k < before.len() && before[k] == n;
                    assert(r@[k] == n);
                } else {
                    assert(r@[r.len() - 1] == n);
                }
            }
            chunk_index = chunk_index + 1;
        }
        r
    }
}

pub proof fn lemma_ceil_div(a: int, b: int)
    requires
        a >= 0,
        b > 0,
    ensures
        ceil_div(a, b) == a / b + if a % b != 0 {
            1int
        } else {
            0int
        },
        ceil_div(a, b) >= 0,
        b * ceil_div(a, b) >= a,
        b * (ceil_div(a, b) - 1) < a || a == 0,
{
    assert(ceil_div(a, b) == a / b + if a % b != 0 {
        1int
    } else {
        0int
    }) by (nonlinear_arith)
        requires
            a >= 0,
            b > 0,
    {
        assert(a == b * (a / b) + a % b);
        assert(0 <= a % b < b);
        if a % b == 0 {
            assert(a + b - 1 == b * (a / b) + (b - 1));
        } else {
            assert(a + b - 1 == b * (a / b + 1) + (a % b - 1));
        }
    }
    assert(b * ceil_div(a, b) >= a && (b * (ceil_div(a, b) - 1) < a || a == 0))
        by (nonlinear_arith)
        requires
            a >= 0,
            b > 0,
            ceil_div(a, b) == a / b + if a % b != 0 {
                1int
            } else {
                0int
            },
    {
        assert(a == b * (a / b) + a % b);
        assert(0 <= a % b < b);
    }
}

proof fn lemma_chunk_size_positive(size: u64)
    ensures
        spec_chunk_size(size) >= BUFFER_SIZE,
        spec_chunk_size(size) <= u64::MAX,
{
    if size > BUFFER_SIZE * S3_PARTS_LIMIT {
        lemma_ceil_div(size as int, S3_PARTS_LIMIT as int);
        assert(ceil_div(size as int, 1000) <= size as int) by (nonlinear_arith)
            requires
                size > 1000,
                1000 * ceil_div(size as int, 1000) >= size,
                1000 * (ceil_div(size as int, 1000) - 1) < size,
        ;
        assert(ceil_div(size as int, 1000) >= BUFFER_SIZE) by (nonlinear_arith)
            requires
                size > 5242880000,
                1000 * ceil_div(size as int, 1000) >= size,
        ;
    }
}

/// An upload never has more parts than S3 allows, every part but the
/// last is full, and the parts cover the file exactly.
pub proof fn lemma_plan_bounds(p: UploadPlan)
    requires
        p.wf(),
    ensures
        p.chunk_size >= 1,
        p.chunk_count <= S3_PARTS_LIMIT,
        p.chunk_size * p.chunk_count >= p.size,
        p.size == 0 || p.chunk_size * (p.chunk_count - 1) < p.size,
{
    lemma_chunk_size_positive(p.size);
    let c = p.chunk_size as int;
    let s = p.size as int;
    lemma_ceil_div(s, c);
    if s > BUFFER_SIZE * S3_PARTS_LIMIT {
        lemma_ceil_div(s, 1000);
        assert(ceil_div(s, c) <= 1000) by (nonlinear_arith)
            requires
                c * 1000 >= s,
                c >= 1,
                s >= 0,
                c * (ceil_div(s, c) - 1) < s || s == 0,
        ;
    } else {
        assert(ceil_div(s, c) <= 1000) by (nonlinear_arith)
            requires
                c == 5242880,
                0 <= s <= 5242880000,
                c * (ceil_div(s, c) - 1) < s || s == 0,
        ;
    }
}

proof fn lemma_offset_within(p: UploadPlan, i: int)
    requires
        p.wf(),
        0 <= i < p.chunk_count,
    ensures
        p.spec_offset(i) < p.size,
        p.spec_offset(i) >= 0,
{
    lemma_plan_bounds(p);
    let c = p.chunk_size as int;
    assert(p.size > 0) by {
        if p.size == 0 {
            lemma_ceil_div(0, c);
            assert(0int / c == 0) by (nonlinear_arith) requires c >= 1;
            assert(0int % c == 0) by (nonlinear_arith) requires c >= 1;
        }
    }
    assert(i * c <= c * (p.chunk_count - 1)) by (nonlinear_arith)
        requires
            0 <= i <= p.chunk_count - 1,
            c >= 1,
    ;
    assert(i * c >= 0) by (nonlinear_arith)
        requires
            i >= 0,
            c >= 1,
    ;
}

/// The id of the unfinished upload of `key`, if there is one: the first
/// listed with that key, which fails when it has no id.
pub fn find_upload_id(uploads: &Vec<MultipartUploadEntry>, key: &str) -> (r: Option<
    Result<String, String>,
>)
    ensures
        match r {
            None => forall|j: int|
                0 <= j < uploads.len() ==> !(#[trigger] uploads[j].key matches Some(k) && k@
                    == key@),
            Some(res) => exists|j: int|
                0 <= j < uploads.len() && (#[trigger] uploads[j].key matches Some(k) && k@
                    == key@) && (forall|q: int|
                    0 <= q < j ==> !(#[trigger] uploads[q].key matches Some(k) && k@ == key@))
                    && match uploads[j].upload_id {
                    Some(id) => res == Ok::<String, String>(id),
                    None => res is Err && res->Err_0@ == "Found upload without ID"@,
                },
        },
{
    let wanted = String::from_str(key);
    let mut i: usize = 0;
    while i < uploads.len()
        invariant
            wanted@ == key@,
            i <= uploads.len(),
            forall|q: int|
                0 <= q < i ==> !(#[trigger] uploads[q].key matches Some(k) && k@ == key@),
        decreases uploads.len() - i,
    {
        let same = match &uploads[i].key {
            Some(k) => *k == wanted,
            None => false,
        };
        if same {
            return Some(
                match &uploads[i].upload_id {
                    Some(id) => Ok(id.clone()),
                    None => Err(String::from_str("Found upload without ID")),
                },
            );
        }
        i = i + 1;
    }
    None
}


/// The decimal digits of `n`.
pub open spec fn decimal(n: nat) -> Seq<char>
    decreases n,
{
    if n < 10 {
        seq![digit_char(n)]
    } else {
        decimal(n / 10).push(digit_char(n % 10))
    }
}

/// The character of a digit.
pub open spec fn digit_char(d: nat) -> char {
    if d == 0 {
        '0'
    } else if d == 1 {
        '1'
    } else if d == 2 {
        '2'
    } else if d == 3 {
        '3'
    } else if d == 4 {
        '4'
    } else if d == 5 {
        '5'
    } else if d == 6 {
        '6'
    } else if d == 7 {
        '7'
    } else if d == 8 {
        '8'
    } else {
        '9'
    }
}

/// Appends the decimal digits of `n` to `s`.
fn push_decimal(s: &mut String, n: u64)
    ensures
        final(s)@ == old(s)@ + decimal(n as nat),
    decreases n,
{
    if n >= 10 {
        push_decimal(s, n / 10);
    }
    let d = (n % 10) as usize;
    let digits = "0123456789";
    proof {
        reveal_strlit("0123456789");
    }
    let one = digits.substring_char(d, d + 1);
    assert(one@ =~= seq![digit_char(d as nat)]);
    s.append(one);
    if n >= 10 {
        assert(s@ =~= old(s)@ + decimal(n as nat));
    } else {
        assert(s@ =~= old(s)@ + decimal(n as nat));
    }
}

/// The `Range` header that asks for the bytes of an object from `from` on:
/// "bytes=" then `from`, '-' and `size` in decimal.
pub fn range_header(from: u64, size: u64) -> (r: String)
    ensures
        r@ == seq!['b', 'y', 't', 'e', 's', '='] + decimal(from as nat) + seq!['-'] + decimal(
            size as nat,
        ),
{
    let mut r = String::from_str("bytes=");
    proof {
        reveal_strlit("bytes=");
        reveal_strlit("-");
    }
    push_decimal(&mut r, from);
    r.append("-");
    push_decimal(&mut r, size);
    r
}

/// How a download starts, given what is already on disk.
#[derive(Debug, Clone, Copy, PartialEq, Eq)]
pub enum DownloadStart {
    /// The file is already there under its final name.
    AlreadyExists,
    /// An earlier download finished but was not renamed.
    RenameOnly,
    /// Fetch the object from this byte on.
    Fetch(u64),
}

/// Decides how a download of an object of `object_size` bytes starts: not
/// when the file exists; by renaming when a partial file already holds the
/// whole object; else from the end of the partial file, or from 0.
pub fn download_start(final_exists: bool, partial_len: Option<u64>, object_size: u64) -> (r:
    DownloadStart)
    ensures
        r == (if final_exists {
            DownloadStart::AlreadyExists
        } else {
            match partial_len {
                Some(len) => if len >= object_size {
                    DownloadStart::RenameOnly
                } else {
                    DownloadStart::Fetch(len)
                },
                None => DownloadStart::Fetch(0),
            }
        }),
{
    if final_exists {
        return DownloadStart::AlreadyExists;
    }
    let mut from: u64 = 0;
    match partial_len {
        Some(len) => {
            from = len;
            if from >= object_size {
                return DownloadStart::RenameOnly;
            }
        },
        None => {},
    }
    DownloadStart::Fetch(from)
}

/// Counts the bytes of a running download and says when to report.
#[derive(Debug, Clone, Copy)]
pub struct DownloadCounter {
    pub downloaded: u64,
    pub written_chunk: usize,
    pub size: u64,
}

impl DownloadCounter {
    /// A download of `size` bytes that starts at byte `from`.
    pub fn new(from: u64, size: u64) -> (r: DownloadCounter)
        ensures
            r.downloaded == from,
            r.written_chunk == 0,
            r.size == size,
    {
        DownloadCounter { downloaded: from, written_chunk: 0, size }
    }

    /// Counts `n` more bytes written; says whether a whole chunk has been
    /// written since the last report, which starts a new chunk.
    pub fn record(&mut self, n: usize) -> (report: bool)
        requires
            old(self).downloaded + n <= u64::MAX,
            old(self).written_chunk + n <= usize::MAX,
        ensures
            final(self).downloaded == old(self).downloaded + n,
            final(self).size == old(self).size,
            report == (old(self).written_chunk + n >= BUFFER_SIZE),
            final(self).written_chunk == (if report {
                0
            } else {
                old(self).written_chunk + n
            }),
    {
        self.written_chunk = self.written_chunk + n;
        self.downloaded = self.downloaded + n as u64;
        if self.written_chunk as u64 >= BUFFER_SIZE {
            self.written_chunk = 0;
            true
        } else {
            false
        }
    }
}

/// The part numbers of a list of completed parts.
pub open spec fn part_numbers(parts: Seq<(i32, String)>) -> Seq<i32> {
    parts.map_values(|p: (i32, String)| p.0)
}

/// A multipart upload under way: its plan, the part numbers still to send
/// in order, how many of them are sent, and the completed parts (number
/// and entity tag): those the endpoint listed first, then those sent.
pub struct UploadSession {
    pub plan: UploadPlan,
    pub to_send: Vec<i32>,
    pub sent: usize,
    pub listed: usize,
    pub completed: Vec<(i32, String)>,
}

impl UploadSession {
    /// The session is consistent: the parts to send are the plan's parts
    /// that were not listed, in order; the completed parts are the listed
    /// ones followed by those sent so far.
    pub open spec fn wf(&self) -> bool {
        &&& self.plan.wf()
        &&& self.sent <= self.to_send.len()
        &&& self.listed + self.sent == self.completed.len()
        &&& forall|k: int| 0 <= k < self.to_send.len() ==> 1 <= #[trigger] self.to_send[k] <= self.plan.chunk_count
        &&& forall|k: int, l: int| 0 <= k < l < self.to_send.len() ==> self.to_send[k] < self.to_send[l]
        &&& forall|k: int| 0 <= k < self.to_send.len() ==> !part_numbers(self.completed@.take(self.listed as int)).contains(#[trigger] self.to_send[k])
        &&& forall|n: i32|
            1 <= n <= self.plan.chunk_count ==> part_numbers(self.completed@.take(self.listed as int)).contains(n)
                || self.to_send@.contains(n)
        &&& forall|k: int| 0 <= k < self.sent ==> #[trigger] self.completed[self.listed + k].0 == self.to_send[k]
    }

    /// A session for a file of `size` bytes, resuming after the parts the
    /// endpoint listed as uploaded.
    pub fn new(size: u64, listed: Vec<(i32, String)>) -> (r: Self)
        ensures
            r.wf(),
            r.plan.size == size,
            r.sent == 0,
            r.completed@ == listed@,
            r.listed == listed.len(),
    {
        let plan = UploadPlan::new(size);
        let mut numbers: Vec<i32> = Vec::new();
        let mut i: usize = 0;
        while i < listed.len()
            invariant
                i <= listed.len(),
                numbers@ == part_numbers(listed@.take(i as int)),
            decreases listed.len() - i,
        {
            numbers.push(listed[i].0);
            proof {
                assert(part_numbers(listed@.take(i + 1)) =~= part_numbers(listed@.take(i as int)).push(listed@[i as int].0));
            }
            i = i + 1;
        }
        proof {
            assert(listed@.take(listed.len() as int) =~= listed@);
        }
        let to_send = plan.parts_to_upload(&numbers);
        let n = listed.len();
        UploadSession { plan, to_send, sent: 0, listed: n, completed: listed }
    }

    /// The bytes reported before any part is sent: a whole part for each
    /// listed one.
    pub fn start_progress(&self) -> (r: u64)
        requires
            self.plan.chunk_size * self.listed <= u64::MAX,
        ensures
            r == self.plan.chunk_size * self.listed,
    {
        self.plan.progress(self.listed as u64)
    }

    /// The next part to send, if any: its number, offset and length.
    pub fn next_part(&self) -> (r: Option<(i32, u64, u64)>)
        requires
            self.wf(),
        ensures
            match r {
                Some(p) => self.sent < self.to_send.len() && p.0 == self.to_send[self.sent as int]
                    && p.1 == self.plan.spec_offset(p.0 - 1) && p.2 == self.plan.spec_part_len(p.0 - 1),
                None => self.sent == self.to_send.len(),
            },
    {
        if self.sent < self.to_send.len() {
            let n = self.to_send[self.sent];
            let (offset, len) = self.plan.part((n - 1) as u64);
            Some((n, offset, len))
        } else {
            None
        }
    }

    /// Records that the next part was sent and got `etag`; gives the bytes
    /// to report: a whole part for each part up to this one's number.
    pub fn part_sent(&mut self, etag: String) -> (r: u64)
        requires
            old(self).wf(),
            old(self).sent < old(self).to_send.len(),
            old(self).plan.chunk_size * old(self).to_send[old(self).sent as int] <= u64::MAX,
        ensures
            final(self).wf(),
            final(self).plan == old(self).plan,
            final(self).to_send == old(self).to_send,
            final(self).listed == old(self).listed,
            final(self).sent == old(self).sent + 1,
            final(self).completed@ == old(self).completed@.push((old(self).to_send[old(self).sent as int], etag)),
            r == old(self).plan.chunk_size * old(self).to_send[old(self).sent as int],
    {
        let n = self.to_send[self.sent];
        self.completed.push((n, etag));
        self.sent = self.sent + 1;
        proof {
            assert(self.completed@.take(self.listed as int) =~= old(self).completed@.take(self.listed as int));
            assert forall|k: int| 0 <= k < self.sent implies #[trigger] self.completed[self.listed + k].0 == self.to_send[k] by {
                if k < old(self).sent {
                    assert(self.completed[self.listed + k] == old(self).completed[self.listed + k]);
                }
            }
        }
        self.plan.progress(n as u64)
    }
}

/// Once every part to send is sent, every part of the plan is among the
/// completed parts: the upload can be completed.
pub proof fn lemma_all_parts_completed(s: UploadSession)
    requires
        s.wf(),
        s.sent == s.to_send.len(),
    ensures
        forall|n: i32| 1 <= n <= s.plan.chunk_count ==> part_numbers(s.completed@).contains(n),
{
    assert forall|n: i32| 1 <= n <= s.plan.chunk_count implies part_numbers(s.completed@).contains(n) by {
        let pre = part_numbers(s.completed@.take(s.listed as int));
        if pre.contains(n) {
            let j = choose|j: int| 0 <= j < pre.len() && pre[j] == n;
            assert(part_numbers(s.completed@)[j] == n);
        } else {
            assert(s.to_send@.contains(n));
            let k = choose|k: int| 0 <= k < s.to_send.len() && s.to_send@[k] == n;
            assert(0 <= k < s.sent);
            assert(s.completed[s.listed + k].0 == s.to_send[k]);
            assert(part_numbers(s.completed@)[s.listed + k] == n);
        }
    }
}

} // verus!
