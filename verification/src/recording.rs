use vstd::prelude::*;

use crate::fusion::assignment::ascending_ids;
use crate::text::digits_value;

verus! {

/// Samples written per batch when no batch size is given.
pub const DEFAULT_RECORDER_BATCH_SIZE: usize = 128;

/// Longest wait before buffered samples are written, in ms, when none is given.
pub const DEFAULT_RECORDER_FLUSH_INTERVAL_MS: u64 = 500;

/// The decimal digits of `n`, most significant first, without leading zeros.
pub open spec fn decimal(n: nat) -> Seq<char>
    decreases n,
{
    if n < 10 {
        seq![(48 + n) as char]
    } else {
        decimal(n / 10).push((48 + n % 10) as char)
    }
}

/// `decimal` writes numbers the usual way: it reads back as the number, every
/// character is a digit `0` to `9`, and only zero itself starts with `0`.
pub proof fn lemma_decimal_reads_back(n: nat)
    ensures
        digits_value(decimal(n)) == n,
        decimal(n).len() >= 1,
        forall|i: int| 0 <= i < decimal(n).len() ==> '0' <= #[trigger] decimal(n)[i] <= '9',
        n > 0 ==> decimal(n)[0] != '0',
    decreases n,
{
    if n >= 10 {
        lemma_decimal_reads_back(n / 10);
        let d = decimal(n / 10);
        let c = (48 + n % 10) as char;
        assert(decimal(n).drop_last() =~= d);
        assert(decimal(n).last() == c);
        assert(c as int == 48 + n % 10);
        assert(n == 10 * (n / 10) + n % 10);
        assert(digits_value(decimal(n)) == digits_value(d) * 10 + ((c as u32) - 48) as nat);
        assert forall|i: int| 0 <= i < decimal(n).len() implies '0' <= #[trigger] decimal(n)[i]
            <= '9' by {
            if i < d.len() {
                assert(decimal(n)[i] == d[i]);
            }
        }
        assert(decimal(n)[0] == d[0]);
    } else {
        assert(decimal(n).drop_last() =~= Seq::<char>::empty());
        assert(decimal(n).last() as int == 48 + n);
        assert(digits_value(Seq::<char>::empty()) == 0);
        assert(digits_value(decimal(n)) == digits_value(decimal(n).drop_last()) * 10 + ((decimal(
            n,
        ).last() as u32) - 48) as nat);
    }
}

/// A recorder started without options writes batches of 128 samples and
/// flushes after at most 500 ms.
pub proof fn lemma_recorder_defaults()
    ensures
        DEFAULT_RECORDER_BATCH_SIZE == 128,
        DEFAULT_RECORDER_FLUSH_INTERVAL_MS == 500,
{
}

/// Calls `<u8 as ToString>::to_string`, which writes the number in decimal.
#[verifier::external_body]
fn u8_to_decimal(n: u8) -> (s: String)
    ensures
        s@ == decimal(n as nat),
{
    n.to_string()
}

/// One column of a bone: a comma, `bone_`, the bone's number and the name.
pub open spec fn column(d: Seq<char>, name: Seq<char>) -> Seq<char> {
    ",bone_"@ + d + name
}

/// The seven columns of a bone in a recording: position x, y, z and rotation
/// x, y, z, w.
pub open spec fn bone_columns(id: u8) -> Seq<char> {
    let d = decimal(id as nat);
    column(d, "_pos_x"@) + column(d, "_pos_y"@) + column(d, "_pos_z"@) + column(d, "_rot_x"@)
        + column(d, "_rot_y"@) + column(d, "_rot_z"@) + column(d, "_rot_w"@)
}

fn append_column(s: &mut String, d: &str, name: &str)
    ensures
        final(s)@ == old(s)@ + column(d@, name@),
{
    s.append(",bone_");
    s.append(d);
    s.append(name);
    assert(s@ =~= old(s)@ + column(d@, name@));
}

/// The columns of one bone.
fn bone_columns_string(id: u8) -> (s: String)
    ensures
        s@ == bone_columns(id),
{
    let d = u8_to_decimal(id);
    let ds = d.as_str();
    let mut s = String::new();
    append_column(&mut s, ds, "_pos_x");
    append_column(&mut s, ds, "_pos_y");
    append_column(&mut s, ds, "_pos_z");
    append_column(&mut s, ds, "_rot_x");
    append_column(&mut s, ds, "_rot_y");
    append_column(&mut s, ds, "_rot_z");
    append_column(&mut s, ds, "_rot_w");
    assert(s@ =~= bone_columns(id));
    s
}

/// The columns of all the bones, in order.
pub open spec fn all_bone_columns(ids: Seq<u8>) -> Seq<char>
    decreases ids.len(),
{
    if ids.len() == 0 {
        Seq::empty()
    } else {
        all_bone_columns(ids.drop_last()) + bone_columns(ids.last())
    }
}

/// The header line of a recording: the timestamp column, then the columns of
/// each bone.
pub open spec fn csv_header_text(ids: Seq<u8>) -> Seq<char> {
    "timestamp_ms"@ + all_bone_columns(ids)
}

/// The header line of a recording of the bones `bone_ids`, in that order.
pub fn csv_header(bone_ids: &Vec<u8>) -> (h: String)
    ensures
        h@ == csv_header_text(bone_ids@),
{
    let mut header = "timestamp_ms".to_owned();
    let mut i: usize = 0;
    while i < bone_ids.len()
        invariant
            i <= bone_ids@.len(),
            header@ == csv_header_text(bone_ids@.take(i as int)),
        decreases bone_ids.len() - i,
    {
        assert(bone_ids@.take(i + 1).drop_last() =~= bone_ids@.take(i as int));
        let cols = bone_columns_string(bone_ids[i]);
        header.append(cols.as_str());
        assert(header@ =~= csv_header_text(bone_ids@.take(i + 1)));
        i = i + 1;
    }
    assert(bone_ids@.take(bone_ids.len() as int) =~= bone_ids@);
    header
}

/// The bones of a recording: each id of `ids` once, ascending.
pub fn recording_bone_ids(ids: &Vec<u8>) -> (r: Vec<u8>)
    ensures
        r@ == ascending_ids(ids@.to_set()),
{
    let mut present: Vec<bool> = Vec::new();
    let mut b: usize = 0;
    while b < 256
        invariant
            b <= 256,
            present@.len() == b,
            forall|k: int| 0 <= k < b ==> !present@[k],
        decreases 256 - b,
    {
        present.push(false);
        b = b + 1;
    }
    let mut i: usize = 0;
    while i < ids.len()
        invariant
            i <= ids.len(),
            present@.len() == 256,
            forall|k: int| 0 <= k < 256 ==> (present@[k] <==> ids@.take(i as int).contains(k as u8)),
        decreases ids.len() - i,
    {
        let id = ids[i];
        present.set(id as usize, true);
        proof {
            let t = ids@.take(i as int);
            let t1 = ids@.take(i + 1);
            assert(t1 =~= t.push(id));
            assert forall|k: int| 0 <= k < 256 implies (present@[k] <==> t1.contains(k as u8)) by {
                if k == id as int {
                    assert(t1[i as int] == id);
                } else {
                    if t1.contains(k as u8) {
                        let j = choose|j: int| 0 <= j < t1.len() && t1[j] == k as u8;
                        assert(j < i);
                        assert(t[j] == k as u8);
                    }
                    if t.contains(k as u8) {
                        let j = choose|j: int| 0 <= j < t.len() && t[j] == k as u8;
                        assert(t1[j] == k as u8);
                    }
                }
            }
        }
        i = i + 1;
    }
    assert(ids@.take(ids.len() as int) =~= ids@);
    let ghost set = ids@.to_set();
    let mut out: Vec<u8> = Vec::new();
    let mut c: u16 = 0;
    while c < 256
        invariant
            c <= 256,
            present@.len() == 256,
            set == ids@.to_set(),
            forall|k: int| 0 <= k < 256 ==> (present@[k] <==> ids@.contains(k as u8)),
            out@ == Seq::new(c as nat, |j: int| j as u8).filter(|k: u8| set.contains(k)),
        decreases 256 - c,
    {
        let id = c as u8;
        let ghost prev = Seq::new(c as nat, |j: int| j as u8);
        let ghost next = Seq::new((c + 1) as nat, |j: int| j as u8);
        assert(next.drop_last() =~= prev);
        assert(next.last() == id);
        proof {
            reveal_with_fuel(Seq::filter, 1);
            assert(set.contains(id) <==> ids@.contains(id));
        }
        if present[c as usize] {
            out.push(id);
        }
        c = c + 1;
    }
    out
}

/// What the background writer of a recording was woken by.
#[derive(Debug, Clone, Copy, PartialEq, Eq, Structural)]
pub enum WriterEvent {
    /// A line was received and buffered.
    Line,
    /// No line arrived in time; `since_flush_ms` have passed since the last write.
    Timeout { since_flush_ms: u64 },
    /// The recorder was dropped.
    Disconnected,
}

/// What the background writer does next.
#[derive(Debug, Clone, Copy, PartialEq, Eq, Structural)]
pub enum WriterAction {
    /// Keep buffering.
    Wait,
    /// Write the buffered lines.
    WriteBatch,
    /// Write the buffered lines, then close the file.
    WriteBatchAndClose,
    /// Close the file.
    Close,
}

/// The background writer's policy: a full batch is written at once, a
/// non-empty buffer is written once the flush interval has passed, and the
/// buffer is written out before closing.
pub fn writer_decision(
    buffered: usize,
    batch_size: usize,
    flush_interval_ms: u64,
    event: WriterEvent,
) -> (a: WriterAction)
    ensures
        a == (match event {
            WriterEvent::Line => if buffered >= batch_size {
                WriterAction::WriteBatch
            } else {
                WriterAction::Wait
            },
            WriterEvent::Timeout { since_flush_ms } => if buffered > 0 && since_flush_ms
                >= flush_interval_ms {
                WriterAction::WriteBatch
            } else {
                WriterAction::Wait
            },
            WriterEvent::Disconnected => if buffered > 0 {
                WriterAction::WriteBatchAndClose
            } else {
                WriterAction::Close
            },
        }),
{
    match event {
        WriterEvent::Line => {
            if buffered >= batch_size {
                WriterAction::WriteBatch
            } else {
                WriterAction::Wait
            }
        },
        WriterEvent::Timeout { since_flush_ms } => {
            if buffered > 0 && since_flush_ms >= flush_interval_ms {
                WriterAction::WriteBatch
            } else {
                WriterAction::Wait
            }
        },
        WriterEvent::Disconnected => {
            if buffered > 0 {
                WriterAction::WriteBatchAndClose
            } else {
                WriterAction::Close
            }
        },
    }
}

/// The settings a running recorder was made with.
#[derive(Debug, Clone)]
pub struct RecorderSettings {
    pub filename: String,
    pub batch_size: usize,
    pub flush_interval_ms: u64,
}

/// How a request to configure the recorder is carried out.
#[derive(Debug, Clone)]
pub enum RecorderPlan {
    /// Drop the running recorder, if any.
    Stop,
    /// Leave the recorder as it is.
    Keep,
    /// Start a recorder with these options; a missing file name is made from
    /// the current time.
    Start { filename: Option<String>, batch_size: usize, flush_interval_ms: u64 },
    /// Replace the running recorder by one with these settings, keeping the
    /// old one should the new one fail to start.
    Restart { filename: String, batch_size: usize, flush_interval_ms: u64 },
}

/// Decides how to carry out a request to configure the recorder, given the
/// settings of the running recorder (if any) and the fields of the request.
pub fn plan_recorder_update(
    current: Option<&RecorderSettings>,
    enabled: Option<bool>,
    filename: Option<String>,
    batch_size: Option<usize>,
    flush_interval_ms: Option<u64>,
) -> (p: RecorderPlan)
    ensures
        ({
            let want = match enabled {
                Some(e) => e,
                None => current is Some,
            };
            if !want {
                p is Stop
            } else if current is None {
                p matches RecorderPlan::Start { filename: f, batch_size: b, flush_interval_ms: i } && f
                    == filename && b == (match batch_size {
                    Some(v) => v,
                    None => DEFAULT_RECORDER_BATCH_SIZE,
                }) && i == (match flush_interval_ms {
                    Some(v) => v,
                    None => DEFAULT_RECORDER_FLUSH_INTERVAL_MS,
                })
            } else if filename is None && batch_size is None && flush_interval_ms is None {
                p is Keep
            } else {
                let c = current.unwrap();
                p matches RecorderPlan::Restart { filename: f, batch_size: b, flush_interval_ms: i }
                    && f@ == (match filename {
                    Some(v) => v@,
                    None => c.filename@,
                }) && b == (match batch_size {
                    Some(v) => v,
                    None => c.batch_size,
                }) && i == (match flush_interval_ms {
                    Some(v) => v,
                    None => c.flush_interval_ms,
                })
            }
        }),
{
    let want_enable = match enabled {
        Some(e) => e,
        None => current.is_some(),
    };
    if !want_enable {
        return RecorderPlan::Stop;
    }
    match current {
        None => RecorderPlan::Start {
            filename,
            batch_size: match batch_size {
                Some(v) => v,
                None => DEFAULT_RECORDER_BATCH_SIZE,
            },
            flush_interval_ms: match flush_interval_ms {
                Some(v) => v,
                None => DEFAULT_RECORDER_FLUSH_INTERVAL_MS,
            },
        },
        Some(existing) => {
            if filename.is_none() && batch_size.is_none() && flush_interval_ms.is_none() {
                return RecorderPlan::Keep;
            }
            RecorderPlan::Restart {
                filename: match filename {
                    Some(v) => v,
                    None => existing.filename.clone(),
                },
                batch_size: match batch_size {
                    Some(v) => v,
                    None => existing.batch_size,
                },
                flush_interval_ms: match flush_interval_ms {
                    Some(v) => v,
                    None => existing.flush_interval_ms,
                },
            }
        },
    }
}

} // verus!
