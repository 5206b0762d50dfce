use vstd::prelude::*;

verus! {

/// One audit record: when an ingest happened, who submitted, what filename.
pub struct LogEntry {
    pub date: Vec<u8>,
    pub author: Vec<u8>,
    pub file: Vec<u8>,
}

/// Escapes one byte for a quoted JSON string.  The quote, the backslash and
/// the three whitespace controls become two-byte escapes; everything else
/// stands for itself.
pub open spec fn esc_byte(b: u8) -> Seq<u8> {
    if b == 0x22 {
        seq![0x5cu8, 0x22]
    } else if b == 0x5c {
        seq![0x5cu8, 0x5c]
    } else if b == 0x0a {
        seq![0x5cu8, 0x6e]
    } else if b == 0x0d {
        seq![0x5cu8, 0x72]
    } else if b == 0x09 {
        seq![0x5cu8, 0x74]
    } else {
        seq![b]
    }
}

/// The escaped form of a whole byte string.
pub open spec fn esc(s: Seq<u8>) -> Seq<u8>
    decreases s.len(),
{
    if s.len() == 0 {
        Seq::empty()
    } else {
        esc_byte(s.first()) + esc(s.drop_first())
    }
}

/// Undoes `esc`: rejects a dangling backslash or an unknown escape code.
pub open spec fn unesc(t: Seq<u8>) -> Option<Seq<u8>>
    decreases t.len(),
{
    if t.len() == 0 {
        Some(Seq::empty())
    } else if t.first() == 0x5c {
        if t.len() >= 2 && (t[1] == 0x22 || t[1] == 0x5c || t[1] == 0x6e || t[1] == 0x72 || t[1]
            == 0x74) {
            let b: u8 = if t[1] == 0x22 {
                0x22
            } else if t[1] == 0x5c {
                0x5c
            } else if t[1] == 0x6e {
                0x0a
            } else if t[1] == 0x72 {
                0x0d
            } else {
                0x09
            };
            match unesc(t.skip(2)) {
                Some(r) => Some(seq![b] + r),
                None => None,
            }
        } else {
            None
        }
    } else {
        match unesc(t.drop_first()) {
            Some(r) => Some(seq![t.first()] + r),
            None => None,
        }
    }
}

/// Escaping loses nothing: a reader undoes it exactly.
pub proof fn lemma_escape_round_trip(s: Seq<u8>)
    ensures
        unesc(esc(s)) == Some(s),
    decreases s.len(),
{
    if s.len() > 0 {
        lemma_escape_round_trip(s.drop_first());
        let b = s.first();
        let rest = esc(s.drop_first());
        if b == 0x22 || b == 0x5c || b == 0x0a || b == 0x0d || b == 0x09 {
            assert(esc(s).len() == 2 + rest.len());
            assert(esc(s).first() == 0x5c);
            assert(esc(s).skip(2) =~= rest);
            assert(seq![b] + s.drop_first() =~= s);
        } else {
            assert(esc(s).first() == b);
            assert(esc(s).drop_first() =~= rest);
            assert(seq![b] + s.drop_first() =~= s);
        }
    }
}

/// No raw newline survives escaping, so a newline always ends a record.
pub proof fn lemma_escape_no_newline(s: Seq<u8>)
    ensures
        forall|i: int| 0 <= i < esc(s).len() ==> esc(s)[i] != 0x0a,
    decreases s.len(),
{
    if s.len() > 0 {
        lemma_escape_no_newline(s.drop_first());
        let head = esc_byte(s.first());
        let rest = esc(s.drop_first());
        assert forall|i: int| 0 <= i < esc(s).len() implies esc(s)[i] != 0x0a by {
            if i < head.len() {
                assert(esc(s)[i] == head[i]);
            } else {
                assert(esc(s)[i] == rest[i - head.len()]);
            }
        }
    }
}

/// Escapes a byte string.
pub fn escape_bytes(s: &Vec<u8>) -> (r: Vec<u8>)
    ensures
        r@ == esc(s@),
{
    let mut out: Vec<u8> = Vec::new();
    let mut i: usize = 0;
    proof {
        assert(s@.skip(0) =~= s@);
    }
    while i < s.len()
        invariant
            i <= s@.len(),
            out@ + esc(s@.skip(i as int)) == esc(s@),
        decreases s@.len() - i,
    {
        let ghost prefix = out@;
        proof {
            assert(s@.skip(i as int).first() == s@[i as int]);
            assert(s@.skip(i as int).drop_first() =~= s@.skip(i as int + 1));
        }
        let b = s[i];
        if b == 0x22 {
            out.push(0x5c);
            out.push(0x22);
        } else if b == 0x5c {
            out.push(0x5c);
            out.push(0x5c);
        } else if b == 0x0a {
            out.push(0x5c);
            out.push(0x6e);
        } else if b == 0x0d {
            out.push(0x5c);
            out.push(0x72);
        } else if b == 0x09 {
            out.push(0x5c);
            out.push(0x74);
        } else {
            out.push(b);
        }
        proof {
            assert(out@ =~= prefix + esc_byte(s@[i as int]));
            assert(prefix + esc_byte(s@[i as int]) + esc(s@.skip(i as int + 1)) =~= prefix + (
            esc_byte(s@[i as int]) + esc(s@.skip(i as int + 1))));
        }
        i = i + 1;
    }
    proof {
        assert(s@.skip(s@.len() as int) =~= Seq::<u8>::empty());
        assert(out@ + esc(Seq::<u8>::empty()) =~= out@);
    }
    out
}

/// The framing bytes around the three fields of a record.
pub open spec fn json_head() -> Seq<u8> {
    seq![0x7bu8, 0x22, 0x64, 0x61, 0x74, 0x65, 0x22, 0x3a, 0x22]
}

pub open spec fn json_mid_author() -> Seq<u8> {
    seq![0x22u8, 0x2c, 0x22, 0x61, 0x75, 0x74, 0x68, 0x6f, 0x72, 0x22, 0x3a, 0x22]
}

pub open spec fn json_mid_file() -> Seq<u8> {
    seq![0x22u8, 0x2c, 0x22, 0x66, 0x69, 0x6c, 0x65, 0x22, 0x3a, 0x22]
}

pub open spec fn json_tail() -> Seq<u8> {
    seq![0x22u8, 0x7d, 0x0a]
}

/// One encoded record: a JSON object with the date, author and file fields,
/// closed by a newline so that records never run together.
pub open spec fn encode_entry_spec(date: Seq<u8>, author: Seq<u8>, file: Seq<u8>) -> Seq<u8> {
    json_head() + esc(date) + json_mid_author() + esc(author) + json_mid_file() + esc(file)
        + json_tail()
}

/// Serializes one audit record as a newline-terminated JSON object.
pub fn encode_entry(e: &LogEntry) -> (r: Vec<u8>)
    ensures
        r@ == encode_entry_spec(e.date@, e.author@, e.file@),
{
    let mut out: Vec<u8> = Vec::new();
    out.push(0x7b);
    out.push(0x22);
    out.push(0x64);
    out.push(0x61);
    out.push(0x74);
    out.push(0x65);
    out.push(0x22);
    out.push(0x3a);
    out.push(0x22);
    let ghost c0 = out@;
    proof {
        assert(c0 =~= json_head());
    }
    let d = escape_bytes(&e.date);
    crate::bytes::push_bytes(&mut out, &d);
    out.push(0x22);
    out.push(0x2c);
    out.push(0x22);
    out.push(0x61);
    out.push(0x75);
    out.push(0x74);
    out.push(0x68);
    out.push(0x6f);
    out.push(0x72);
    out.push(0x22);
    out.push(0x3a);
    out.push(0x22);
    let a = escape_bytes(&e.author);
    crate::bytes::push_bytes(&mut out, &a);
    out.push(0x22);
    out.push(0x2c);
    out.push(0x22);
    out.push(0x66);
    out.push(0x69);
    out.push(0x6c);
    out.push(0x65);
    out.push(0x22);
    out.push(0x3a);
    out.push(0x22);
    let f = escape_bytes(&e.file);
    crate::bytes::push_bytes(&mut out, &f);
    out.push(0x22);
    out.push(0x7d);
    out.push(0x0a);
    proof {
        assert(out@ =~= encode_entry_spec(e.date@, e.author@, e.file@));
    }
    out
}

/// Where the quoted field at the front of `t` ends: the distance to its
/// closing quote.  Escape pairs are consumed whole, so a backslash never
/// hides the closing quote.  Nothing comes back when no closing quote
/// follows.
pub open spec fn field_len(t: Seq<u8>) -> Option<int>
    decreases t.len(),
{
    if t.len() == 0 {
        None
    } else if t.first() == 0x22 {
        Some(0)
    } else if t.first() == 0x5c {
        if t.len() >= 2 {
            match field_len(t.skip(2)) {
                Some(n) => Some(n + 2),
                None => None,
            }
        } else {
            None
        }
    } else {
        match field_len(t.drop_first()) {
            Some(n) => Some(n + 1),
            None => None,
        }
    }
}

/// An escaped field runs exactly up to the quote that closes it, whatever
/// follows that quote.
proof fn lemma_field_len_esc(s: Seq<u8>, r: Seq<u8>)
    ensures
        field_len(esc(s) + seq![0x22u8] + r) == Some(esc(s).len() as int),
    decreases s.len(),
{
    let t = esc(s) + seq![0x22u8] + r;
    if s.len() == 0 {
        assert(esc(s) =~= Seq::<u8>::empty());
        assert(t.first() == 0x22);
    } else {
        let b = s.first();
        lemma_field_len_esc(s.drop_first(), r);
        if b == 0x22 || b == 0x5c || b == 0x0a || b == 0x0d || b == 0x09 {
            assert(t.first() == 0x5c);
            assert(t.len() >= 2);
            assert(t.skip(2) =~= esc(s.drop_first()) + seq![0x22u8] + r);
        } else {
            assert(t.first() == b && b != 0x22 && b != 0x5c);
            assert(t.drop_first() =~= esc(s.drop_first()) + seq![0x22u8] + r);
        }
    }
}

/// Reads one encoded line back into its three fields: the framing is
/// checked byte for byte, each field is taken up to its closing quote and
/// unescaped, and anything malformed is rejected.
pub open spec fn decode_entry_spec(line: Seq<u8>) -> Option<(Seq<u8>, Seq<u8>, Seq<u8>)> {
    if line.len() >= 9 && line.subrange(0, 9) == json_head() {
        let t1 = line.skip(9);
        match field_len(t1) {
            Some(n1) => {
                let t2 = t1.skip(n1);
                if t2.len() >= 12 && t2.subrange(0, 12) == json_mid_author() {
                    let t3 = t2.skip(12);
                    match field_len(t3) {
                        Some(n2) => {
                            let t4 = t3.skip(n2);
                            if t4.len() >= 10 && t4.subrange(0, 10) == json_mid_file() {
                                let t5 = t4.skip(10);
                                match field_len(t5) {
                                    Some(n3) => {
                                        if t5.skip(n3) == json_tail() {
                                            match (
                                                unesc(t1.subrange(0, n1)),
                                                unesc(t3.subrange(0, n2)),
                                                unesc(t5.subrange(0, n3)),
                                            ) {
                                                (Some(d), Some(a), Some(f)) => Some((d, a, f)),
                                                _ => None,
                                            }
                                        } else {
                                            None
                                        }
                                    },
                                    None => None,
                                }
                            } else {
                                None
                            }
                        },
                        None => None,
                    }
                } else {
                    None
                }
            },
            None => None,
        }
    } else {
        None
    }
}

/// A reader recovers a record exactly: decoding an encoded line yields the
/// three fields that were written, unchanged.
#[verifier::rlimit(60)]
pub proof fn lemma_record_round_trip(date: Seq<u8>, author: Seq<u8>, file: Seq<u8>)
    ensures
        decode_entry_spec(encode_entry_spec(date, author, file)) == Some((date, author, file)),
{
    let line = encode_entry_spec(date, author, file);
    let m1 = json_mid_author();
    let m2 = json_mid_file();
    let tl = json_tail();
    assert(line.len() >= 9);
    assert(line.subrange(0, 9) =~= json_head());
    let t1 = line.skip(9);
    let rest1 = m1.skip(1) + esc(author) + m2 + esc(file) + tl;
    assert(t1 =~= esc(date) + seq![0x22u8] + rest1);
    lemma_field_len_esc(date, rest1);
    let n1 = esc(date).len() as int;
    assert(field_len(t1) == Some(n1));
    assert(t1.subrange(0, n1) =~= esc(date));
    let t2 = t1.skip(n1);
    assert(t2 =~= m1 + esc(author) + m2 + esc(file) + tl);
    assert(t2.len() >= 12);
    assert(t2.subrange(0, 12) =~= m1);
    let t3 = t2.skip(12);
    let rest2 = m2.skip(1) + esc(file) + tl;
    assert(t3 =~= esc(author) + seq![0x22u8] + rest2);
    lemma_field_len_esc(author, rest2);
    let n2 = esc(author).len() as int;
    assert(field_len(t3) == Some(n2));
    assert(t3.subrange(0, n2) =~= esc(author));
    let t4 = t3.skip(n2);
    assert(t4 =~= m2 + esc(file) + tl);
    assert(t4.len() >= 10);
    assert(t4.subrange(0, 10) =~= m2);
    let t5 = t4.skip(10);
    let rest3 = tl.skip(1);
    assert(t5 =~= esc(file) + seq![0x22u8] + rest3);
    lemma_field_len_esc(file, rest3);
    let n3 = esc(file).len() as int;
    assert(field_len(t5) == Some(n3));
    assert(t5.subrange(0, n3) =~= esc(file));
    assert(t5.skip(n3) =~= tl);
    lemma_escape_round_trip(date);
    lemma_escape_round_trip(author);
    lemma_escape_round_trip(file);
}

/// The bytes of a whole log: the records' encodings, in order.
pub open spec fn encoded_log(rs: Seq<LogEntry>) -> Seq<u8>
    decreases rs.len(),
{
    if rs.len() == 0 {
        Seq::empty()
    } else {
        encoded_log(rs.drop_last()) + encode_entry_spec(
            rs.last().date@,
            rs.last().author@,
            rs.last().file@,
        )
    }
}

/// Appending a record extends the encoded log by exactly that record's line
/// and leaves every byte that was already written untouched.
pub proof fn lemma_log_append_only(rs: Seq<LogEntry>, e: LogEntry)
    ensures
        encoded_log(rs.push(e)) == encoded_log(rs) + encode_entry_spec(e.date@, e.author@, e.file@),
        forall|i: int|
            0 <= i < encoded_log(rs).len() ==> encoded_log(rs.push(e))[i] == encoded_log(rs)[i],
{
    assert(rs.push(e).drop_last() =~= rs);
    assert(rs.push(e).last() == e);
}

/// The append-only audit log.  Its view is the sequence of records in the
/// order they were appended; `encoded_log` of that view is what stands on
/// disk.
pub struct AuditLog {
    records: Vec<LogEntry>,
}

impl View for AuditLog {
    type V = Seq<LogEntry>;

    closed spec fn view(&self) -> Seq<LogEntry> {
        self.records@
    }
}

impl AuditLog {
    /// A log with no records.
    pub fn new() -> (l: Self)
        ensures
            l@ == Seq::<LogEntry>::empty(),
    {
        AuditLog { records: Vec::new() }
    }

    /// Appends one record.  Nothing already in the log moves or changes:
    /// the new view is the old view with the record at the end.
    pub fn append(&mut self, e: LogEntry)
        ensures
            final(self)@ == old(self)@.push(e),
    {
        self.records.push(e);
    }

    /// How many records the log holds.
    pub fn len(&self) -> (n: usize)
        ensures
            n == self@.len(),
    {
        self.records.len()
    }

    /// Reads one record back.
    pub fn record(&self, i: usize) -> (r: &LogEntry)
        requires
            i < self@.len(),
        ensures
            *r == self@[i as int],
    {
        &self.records[i]
    }

    /// Renders the whole log as its on-disk bytes: each record's line, in
    /// append order.
    pub fn render(&self) -> (r: Vec<u8>)
        ensures
            r@ == encoded_log(self@),
    {
        let mut out: Vec<u8> = Vec::new();
        let mut i: usize = 0;
        while i < self.records.len()
            invariant
                i <= self@.len(),
                out@ == encoded_log(self@.take(i as int)),
            decreases self@.len() - i,
        {
            proof {
                assert(self@.take(i as int + 1).drop_last() =~= self@.take(i as int));
                assert(self@.take(i as int + 1).last() == self@[i as int]);
            }
            let line = encode_entry(&self.records[i]);
            crate::bytes::push_bytes(&mut out, &line);
            i = i + 1;
        }
        proof {
            assert(self@.take(self@.len() as int) =~= self@);
        }
        out
    }
}

} // verus!
