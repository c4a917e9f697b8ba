//! Dialect-tolerant CSV tokenizer.
//!
//! The grammar is given as a byte-driven state machine (`csv_step`) folded
//! over the input; `split_csv` is the verified single-pass reader.  The
//! dialect: records end at LF, CR or CRLF; fields are separated by a
//! configurable delimiter byte; a field that begins with a double quote is
//! quoted, `""` inside it denotes a literal quote, and text after the
//! closing quote up to the next delimiter or record end is kept verbatim;
//! a quote inside an unquoted field is a literal quote; completely empty
//! lines yield no record.

use vstd::prelude::*;

verus! {

/// Tokenizer mode between two input bytes.
#[derive(Debug, Clone, Copy, PartialEq, Eq, Structural)]
pub enum CsvMode {
    /// At the start of a field.
    FieldStart,
    /// Inside an unquoted field.
    Plain,
    /// Inside a quoted field.
    Quoted,
    /// Inside a quoted field, directly after a quote byte.
    QuoteSeen,
    /// Directly after a CR that ended a record.
    AfterCr,
}

/// Ghost tokenizer state: finished records, finished fields of the current
/// record, the current field, the mode, and whether the current record has
/// consumed any byte at all (empty lines yield no record).
pub struct CsvState {
    pub records: Seq<Seq<Seq<u8>>>,
    pub fields: Seq<Seq<u8>>,
    pub cur: Seq<u8>,
    pub mode: CsvMode,
    pub seen: bool,
}

pub open spec fn csv_init() -> CsvState {
    CsvState {
        records: seq![],
        fields: seq![],
        cur: seq![],
        mode: CsvMode::FieldStart,
        seen: false,
    }
}

/// Ends the current record: emits it unless the record consumed no bytes.
pub open spec fn csv_end_record(st: CsvState, mode: CsvMode) -> CsvState {
    CsvState {
        records: if st.seen {
            st.records.push(st.fields.push(st.cur))
        } else {
            st.records
        },
        fields: seq![],
        cur: seq![],
        mode: mode,
        seen: false,
    }
}

/// One byte at the start of a field (also the start of a record).
pub open spec fn csv_step_start(st: CsvState, b: u8, delim: u8) -> CsvState {
    if b == delim {
        CsvState { fields: st.fields.push(st.cur), cur: seq![], seen: true, ..st }
    } else if b == 34 {
        CsvState { mode: CsvMode::Quoted, seen: true, ..st }
    } else if b == 10 {
        csv_end_record(st, CsvMode::FieldStart)
    } else if b == 13 {
        csv_end_record(st, CsvMode::AfterCr)
    } else {
        CsvState { cur: st.cur.push(b), mode: CsvMode::Plain, seen: true, ..st }
    }
}

/// One byte of input.
pub open spec fn csv_step(st: CsvState, b: u8, delim: u8) -> CsvState {
    match st.mode {
        CsvMode::FieldStart => csv_step_start(st, b, delim),
        CsvMode::Plain => {
            if b == delim {
                CsvState {
                    fields: st.fields.push(st.cur),
                    cur: seq![],
                    mode: CsvMode::FieldStart,
                    ..st
                }
            } else if b == 10 {
                csv_end_record(st, CsvMode::FieldStart)
            } else if b == 13 {
                csv_end_record(st, CsvMode::AfterCr)
            } else {
                CsvState { cur: st.cur.push(b), ..st }
            }
        },
        CsvMode::Quoted => {
            if b == 34 {
                CsvState { mode: CsvMode::QuoteSeen, ..st }
            } else {
                CsvState { cur: st.cur.push(b), ..st }
            }
        },
        CsvMode::QuoteSeen => {
            if b == 34 {
                CsvState { cur: st.cur.push(34u8), mode: CsvMode::Quoted, ..st }
            } else if b == delim {
                CsvState {
                    fields: st.fields.push(st.cur),
                    cur: seq![],
                    mode: CsvMode::FieldStart,
                    ..st
                }
            } else if b == 10 {
                csv_end_record(st, CsvMode::FieldStart)
            } else if b == 13 {
                csv_end_record(st, CsvMode::AfterCr)
            } else {
                CsvState { cur: st.cur.push(b), mode: CsvMode::Plain, ..st }
            }
        },
        CsvMode::AfterCr => {
            if b == 10 {
                CsvState { mode: CsvMode::FieldStart, ..st }
            } else {
                csv_step_start(CsvState { mode: CsvMode::FieldStart, ..st }, b, delim)
            }
        },
    }
}

/// The state after consuming all of `s`.
pub open spec fn csv_fold(s: Seq<u8>, delim: u8) -> CsvState
    decreases s.len(),
{
    if s.len() == 0 {
        csv_init()
    } else {
        csv_step(csv_fold(s.drop_last(), delim), s.last(), delim)
    }
}

/// All records of `s`: the fold, with a final unterminated record emitted
/// if it consumed any byte.
pub open spec fn csv_records_spec(s: Seq<u8>, delim: u8) -> Seq<Seq<Seq<u8>>> {
    let st = csv_fold(s, delim);
    if st.seen {
        st.records.push(st.fields.push(st.cur))
    } else {
        st.records
    }
}

struct SplitState {
    records: Vec<Vec<Vec<u8>>>,
    fields: Vec<Vec<u8>>,
    cur: Vec<u8>,
    mode: CsvMode,
    seen: bool,
}

impl SplitState {
    spec fn model(self) -> CsvState {
        CsvState {
            records: self.records.deep_view(),
            fields: self.fields.deep_view(),
            cur: self.cur@,
            mode: self.mode,
            seen: self.seen,
        }
    }
}

/// Moves the current field into the finished fields.
fn take_field(st: &mut SplitState)
    ensures
        final(st).model() == (CsvState {
            fields: old(st).model().fields.push(old(st).model().cur),
            cur: seq![],
            ..old(st).model()
        }),
{
    let f = vstd::slice::slice_to_vec(st.cur.as_slice());
    st.fields.push(f);
    st.cur.clear();
    proof {
        assert(st.fields.deep_view() =~~= old(st).fields.deep_view().push(old(st).cur@));
        assert(st.cur@ =~= Seq::<u8>::empty());
    }
}

/// Ends the current record, emitting it unless nothing was consumed.
fn take_record(st: &mut SplitState, mode: CsvMode)
    ensures
        final(st).model() == csv_end_record(old(st).model(), mode),
{
    if st.seen {
        let f = vstd::slice::slice_to_vec(st.cur.as_slice());
        st.fields.push(f);
        proof {
            assert(st.fields.deep_view() =~~= old(st).fields.deep_view().push(old(st).cur@));
        }
        let ghost fdv = st.fields.deep_view();
        let mut done: Vec<Vec<u8>> = Vec::new();
        std::mem::swap(&mut done, &mut st.fields);
        st.records.push(done);
        proof {
            assert(st.records.deep_view() =~~= old(st).records.deep_view().push(fdv));
            assert(st.fields.deep_view() =~~= Seq::<Seq<u8>>::empty());
        }
    } else {
        st.fields.clear();
        proof {
            assert(st.fields.deep_view() =~~= Seq::<Seq<u8>>::empty());
        }
    }
    st.cur.clear();
    st.mode = mode;
    st.seen = false;
    proof {
        assert(st.cur@ =~= Seq::<u8>::empty());
    }
}

/// One byte at field start.
fn do_step_start(st: &mut SplitState, b: u8, delim: u8)
    requires
        old(st).model().mode == CsvMode::FieldStart,
    ensures
        final(st).model() == csv_step_start(old(st).model(), b, delim),
{
    if b == delim {
        take_field(st);
        st.seen = true;
    } else if b == 34 {
        st.mode = CsvMode::Quoted;
        st.seen = true;
    } else if b == 10 {
        take_record(st, CsvMode::FieldStart);
    } else if b == 13 {
        take_record(st, CsvMode::AfterCr);
    } else {
        st.cur.push(b);
        st.mode = CsvMode::Plain;
        st.seen = true;
    }
}

/// One byte of input.
fn do_step(st: &mut SplitState, b: u8, delim: u8)
    ensures
        final(st).model() == csv_step(old(st).model(), b, delim),
{
    match st.mode {
        CsvMode::FieldStart => do_step_start(st, b, delim),
        CsvMode::Plain => {
            if b == delim {
                take_field(st);
                st.mode = CsvMode::FieldStart;
            } else if b == 10 {
                take_record(st, CsvMode::FieldStart);
            } else if b == 13 {
                take_record(st, CsvMode::AfterCr);
            } else {
                st.cur.push(b);
            }
        },
        CsvMode::Quoted => {
            if b == 34 {
                st.mode = CsvMode::QuoteSeen;
            } else {
                st.cur.push(b);
            }
        },
        CsvMode::QuoteSeen => {
            if b == 34 {
                st.cur.push(34);
                st.mode = CsvMode::Quoted;
            } else if b == delim {
                take_field(st);
                st.mode = CsvMode::FieldStart;
            } else if b == 10 {
                take_record(st, CsvMode::FieldStart);
            } else if b == 13 {
                take_record(st, CsvMode::AfterCr);
            } else {
                st.cur.push(b);
                st.mode = CsvMode::Plain;
            }
        },
        CsvMode::AfterCr => {
            if b == 10 {
                st.mode = CsvMode::FieldStart;
            } else {
                st.mode = CsvMode::FieldStart;
                do_step_start(st, b, delim);
            }
        },
    }
}

/// Splits raw text into records of fields, following `csv_records_spec`.
pub fn split_csv(content: &[u8], delim: u8) -> (r: Vec<Vec<Vec<u8>>>)
    ensures
        r.deep_view() == csv_records_spec(content@, delim),
{
    let n: usize = content.len();
    let mut st = SplitState {
        records: Vec::new(),
        fields: Vec::new(),
        cur: Vec::new(),
        mode: CsvMode::FieldStart,
        seen: false,
    };
    proof {
        assert(st.model().records =~~= csv_init().records);
        assert(st.model().fields =~~= csv_init().fields);
        assert(st.model().cur =~= csv_init().cur);
        assert(content@.take(0) =~= Seq::<u8>::empty());
    }
    let mut i: usize = 0;
    while i < n
        invariant
            0 <= i <= n,
            n == content@.len(),
            st.model() == csv_fold(content@.take(i as int), delim),
        decreases n - i,
    {
        proof {
            let pre = content@.take(i + 1);
            assert(pre.drop_last() =~= content@.take(i as int));
            assert(pre.last() == content@[i as int]);
        }
        do_step(&mut st, content[i], delim);
        i = i + 1;
    }
    proof {
        assert(content@.take(n as int) =~= content@);
    }
    let SplitState { mut records, mut fields, cur, mode: _, seen } = st;
    if seen {
        fields.push(cur);
        proof {
            assert(fields.deep_view() =~~= csv_fold(content@, delim).fields.push(
                csv_fold(content@, delim).cur,
            ));
        }
        let ghost fdv = fields.deep_view();
        records.push(fields);
        proof {
            assert(records.deep_view() =~~= csv_fold(content@, delim).records.push(fdv));
        }
    }
    records
}

} // verus!
