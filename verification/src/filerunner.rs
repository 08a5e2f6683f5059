//! Test-vector replay over comma-separated rows: a header names the input and
//! output buses, and each data row sets the inputs, advances the scheduler one
//! tick, and checks the outputs.
//!
//! Reading rows from a file or stream is the embedder's affair; this module
//! takes the header and each row as text and does everything else: field
//! splitting, trimming, number parsing, input application and output checking.

use vstd::prelude::*;

use crate::board::{board_lens, BoardView};
use crate::components::inputsource::{InputSource, InputView};
use crate::components::outputsink::{OutputSink, OutputView};
use crate::pin::SimplePin;
use crate::scheduler::{Scheduler, SchedulerView, SimError};

verus! {

/// An ASCII character the field trimmer removes at either end: space, tab,
/// carriage return or line feed.
pub open spec fn is_space(c: u8) -> bool {
    c == 32 || c == 9 || c == 13 || c == 10
}

/// `s` without leading spaces.
pub open spec fn trim_front(s: Seq<u8>) -> Seq<u8>
    decreases s.len(),
{
    if s.len() > 0 && is_space(s[0]) {
        trim_front(s.drop_first())
    } else {
        s
    }
}

/// `s` without trailing spaces.
pub open spec fn trim_back(s: Seq<u8>) -> Seq<u8>
    decreases s.len(),
{
    if s.len() > 0 && is_space(s.last()) {
        trim_back(s.drop_last())
    } else {
        s
    }
}

/// `s` without leading or trailing spaces.
pub open spec fn trim_spec(s: Seq<u8>) -> Seq<u8> {
    trim_back(trim_front(s))
}

/// The first position of `sep` in `s` at or after `k`, or -1 when none is.
pub open spec fn find_byte(s: Seq<u8>, sep: u8, k: int) -> int
    decreases s.len() - k,
{
    if !(0 <= k < s.len()) {
        -1
    } else if s[k] == sep {
        k
    } else {
        find_byte(s, sep, k + 1)
    }
}

/// `s` split on `sep`: the fields between separators, in order, separators
/// excluded. A string without separators is one field; n separators give
/// n + 1 fields, so consecutive separators give empty fields.
pub open spec fn split_spec(s: Seq<u8>, sep: u8) -> Seq<Seq<u8>>
    decreases s.len(),
{
    let k = find_byte(s, sep, 0);
    if !(0 <= k < s.len()) {
        seq![s]
    } else {
        seq![s.subrange(0, k)] + split_spec(s.subrange(k + 1, s.len() as int), sep)
    }
}

/// The views of a sequence of byte vectors.
pub open spec fn views_of(r: Seq<Vec<u8>>) -> Seq<Seq<u8>> {
    Seq::new(r.len(), |i: int| r[i]@)
}

/// `c` is a decimal digit.
pub open spec fn is_digit(c: u8) -> bool {
    48 <= c <= 57
}

/// `s` is one or more decimal digits.
pub open spec fn all_digits(s: Seq<u8>) -> bool {
    s.len() > 0 && forall|j: int| 0 <= j < s.len() ==> is_digit(#[trigger] s[j])
}

/// The value of a string of decimal digits.
pub open spec fn digits_val(s: Seq<u8>) -> int
    decreases s.len(),
{
    if s.len() == 0 {
        0
    } else {
        digits_val(s.drop_last()) * 10 + (s.last() - 48)
    }
}

/// The digits of `s` after an optional leading sign, or the empty sequence if
/// a lone sign is all there is.
pub open spec fn number_digits(s: Seq<u8>) -> Seq<u8> {
    if s.len() > 0 && (s[0] == 43 || s[0] == 45) {
        s.drop_first()
    } else {
        s
    }
}

/// The signed value `s` denotes, when it parses.
pub open spec fn parse_val(s: Seq<u8>) -> int {
    if s.len() > 0 && s[0] == 45 {
        -digits_val(number_digits(s))
    } else {
        digits_val(number_digits(s))
    }
}

/// `s` parses as an `i32`: an optional sign, then digits only, with the value
/// in range.
pub open spec fn parse_ok(s: Seq<u8>) -> bool {
    &&& all_digits(number_digits(s))
    &&& i32::MIN <= parse_val(s) <= i32::MAX
}

/// Exec mirror of [`is_space`].
fn is_space_x(c: u8) -> (r: bool)
    ensures
        r == is_space(c),
{
    c == 32 || c == 9 || c == 13 || c == 10
}

proof fn lemma_trim_front_skip(s: Seq<u8>, lo: int)
    requires
        0 <= lo <= s.len(),
        forall|j: int| 0 <= j < lo ==> is_space(#[trigger] s[j]),
        lo < s.len() ==> !is_space(s[lo]),
    ensures
        trim_front(s) == s.skip(lo),
    decreases lo,
{
    if lo == 0 {
        assert(trim_front(s) =~= s.skip(0)) by {
            assert(s.skip(0) =~= s);
        }
    } else {
        assert(s.len() > 0 && is_space(s[0]));
        lemma_trim_front_skip(s.drop_first(), lo - 1);
        assert(s.drop_first().skip(lo - 1) =~= s.skip(lo));
    }
}

proof fn lemma_trim_back_take(s: Seq<u8>, hi: int)
    requires
        0 <= hi <= s.len(),
        forall|j: int| hi <= j < s.len() ==> is_space(#[trigger] s[j]),
        hi > 0 ==> !is_space(s[hi - 1]),
    ensures
        trim_back(s) == s.take(hi),
    decreases s.len() - hi,
{
    if hi == s.len() {
        assert(trim_back(s) =~= s.take(hi)) by {
            assert(s.take(s.len() as int) =~= s);
        }
    } else {
        assert(s.len() > 0 && is_space(s.last()));
        lemma_trim_back_take(s.drop_last(), hi);
        assert(s.drop_last().take(hi) =~= s.take(hi));
    }
}

/// The field without its leading and trailing spaces, as a fresh vector.
fn trimmed(s: &[u8]) -> (r: Vec<u8>)
    ensures
        r@ == trim_spec(s@),
{
    let n = s.len();
    let mut lo: usize = 0;
    while lo < n && is_space_x(s[lo])
        invariant
            lo <= n,
            n == s@.len(),
            forall|j: int| 0 <= j < lo ==> is_space(#[trigger] s@[j]),
        decreases n - lo,
    {
        lo += 1;
    }
    proof {
        lemma_trim_front_skip(s@, lo as int);
    }
    let mut hi: usize = n;
    while hi > lo && is_space_x(s[hi - 1])
        invariant
            lo <= hi <= n,
            n == s@.len(),
            lo < n ==> !is_space(s@[lo as int]),
            forall|j: int| hi <= j < n ==> is_space(#[trigger] s@[j]),
        decreases hi,
    {
        hi -= 1;
    }
    proof {
        assert forall|j: int| hi - lo <= j < s@.skip(lo as int).len() implies is_space(
            #[trigger] s@.skip(lo as int)[j],
        ) by {
            assert(s@.skip(lo as int)[j] == s@[j + lo]);
        }
        if hi > lo {
            assert(s@.skip(lo as int)[hi - lo - 1] == s@[hi - 1]);
        }
        lemma_trim_back_take(s@.skip(lo as int), hi - lo);
    }
    let mut r: Vec<u8> = Vec::new();
    let mut k: usize = lo;
    while k < hi
        invariant
            lo <= k <= hi <= n,
            n == s@.len(),
            r@ =~= s@.subrange(lo as int, k as int),
        decreases hi - k,
    {
        r.push(s[k]);
        proof {
            assert(r@ =~= s@.subrange(lo as int, k + 1 as int));
        }
        k += 1;
    }
    proof {
        assert(s@.subrange(lo as int, hi as int) =~= s@.skip(lo as int).take(hi - lo));
        assert(r@ == trim_spec(s@));
    }
    r
}

/// `s` split on `sep`, each field as a fresh vector.
fn split_bytes(s: &[u8], sep: u8) -> (r: Vec<Vec<u8>>)
    ensures
        views_of(r@) == split_spec(s@, sep),
    decreases s@.len(),
{
    let n = s.len();
    let mut k: usize = 0;
    while k < n && s[k] != sep
        invariant
            k <= n,
            n == s@.len(),
            forall|j: int| 0 <= j < k ==> s@[j] != sep,
        decreases n - k,
    {
        k += 1;
    }
    if k == n {
        proof {
            lemma_find_byte_none(s@, sep, 0);
        }
        let mut piece: Vec<u8> = Vec::new();
        let mut j: usize = 0;
        while j < n
            invariant
                j <= n,
                n == s@.len(),
                piece@ =~= s@.subrange(0, j as int),
            decreases n - j,
        {
            piece.push(s[j]);
            proof {
                assert(piece@ =~= s@.subrange(0, j + 1 as int));
            }
            j += 1;
        }
        let mut r: Vec<Vec<u8>> = Vec::new();
        proof {
            assert(piece@ =~= s@);
        }
        r.push(piece);
        proof {
            assert(views_of(r@) =~= split_spec(s@, sep));
        }
        r
    } else {
        proof {
            lemma_find_byte_at(s@, sep, 0, k as int);
        }
        let mut piece: Vec<u8> = Vec::new();
        let mut j: usize = 0;
        while j < k
            invariant
                j <= k <= n,
                n == s@.len(),
                piece@ =~= s@.subrange(0, j as int),
            decreases k - j,
        {
            piece.push(s[j]);
            proof {
                assert(piece@ =~= s@.subrange(0, j + 1 as int));
            }
            j += 1;
        }
        let tail = &s[k + 1..n];
        let mut rest = split_bytes(tail, sep);
        let mut r: Vec<Vec<u8>> = Vec::new();
        r.push(piece);
        let ghost rest_views = views_of(rest@);
        r.append(&mut rest);
        proof {
            assert forall|i: int| 0 <= i < views_of(r@).len() implies views_of(r@)[i]
                == split_spec(s@, sep)[i] by {
                if i > 0 {
                    assert(views_of(r@)[i] == rest_views[i - 1]);
                }
            }
            assert(views_of(r@) =~= split_spec(s@, sep));
        }
        r
    }
}

proof fn lemma_find_byte_none(s: Seq<u8>, sep: u8, lo: int)
    requires
        0 <= lo,
        forall|j: int| lo <= j < s.len() ==> s[j] != sep,
    ensures
        find_byte(s, sep, lo) == -1,
    decreases s.len() - lo,
{
    if lo < s.len() {
        lemma_find_byte_none(s, sep, lo + 1);
    }
}

proof fn lemma_find_byte_at(s: Seq<u8>, sep: u8, lo: int, k: int)
    requires
        0 <= lo <= k < s.len(),
        s[k] == sep,
        forall|j: int| lo <= j < k ==> s[j] != sep,
    ensures
        find_byte(s, sep, lo) == k,
    decreases k - lo,
{
    if lo < k {
        lemma_find_byte_at(s, sep, lo + 1, k);
    }
}

proof fn lemma_digits_nonneg(s: Seq<u8>)
    requires
        forall|j: int| 0 <= j < s.len() ==> is_digit(#[trigger] s[j]),
    ensures
        digits_val(s) >= 0,
    decreases s.len(),
{
    if s.len() > 0 {
        lemma_digits_nonneg(s.drop_last());
    }
}

proof fn lemma_digits_prefix(s: Seq<u8>, k: int)
    requires
        forall|j: int| 0 <= j < s.len() ==> is_digit(#[trigger] s[j]),
        0 <= k <= s.len(),
    ensures
        digits_val(s.take(k)) <= digits_val(s),
    decreases s.len() - k,
{
    if k == s.len() {
        assert(s.take(k) =~= s);
    } else {
        lemma_digits_prefix(s, k + 1);
        let t = s.take(k + 1);
        assert(t.drop_last() =~= s.take(k));
        lemma_digits_nonneg(s.take(k));
        assert(digits_val(s.take(k)) <= digits_val(t));
    }
}

/// Parse a signed decimal integer, exactly as the standard parser accepts it:
/// an optional `+` or `-` sign, then one or more digits, nothing else, and a
/// value that fits.
pub fn parse_i32(s: &[u8]) -> (r: Result<i32, ()>)
    ensures
        r is Ok <==> parse_ok(s@),
        r matches Ok(v) ==> v == parse_val(s@),
{
    let n = s.len();
    let mut start: usize = 0;
    let mut neg = false;
    if n > 0 && (s[0] == 43 || s[0] == 45) {
        start = 1;
        neg = s[0] == 45;
    }
    let ghost digits = number_digits(s@);
    proof {
        assert(digits =~= s@.subrange(start as int, n as int));
    }
    if start == n {
        return Err(());
    }
    let mut m: i64 = 0;
    let mut k: usize = start;
    while k < n
        invariant
            start <= k <= n,
            n == s@.len(),
            start < n,
            digits =~= s@.subrange(start as int, n as int),
            digits == number_digits(s@),
            neg == (s@.len() > 0 && s@[0] == 45),
            forall|j: int| start <= j < k ==> is_digit(#[trigger] s@[j]),
            m == digits_val(digits.take(k - start)),
            0 <= m <= 2147483648,
        decreases n - k,
    {
        let c = s[k];
        if c < 48 || c > 57 {
            proof {
                assert(digits[k - start] == s@[k as int]);
                assert(!all_digits(digits));
            }
            return Err(());
        }
        proof {
            assert(digits.take(k + 1 - start).drop_last() =~= digits.take(k - start));
            assert(digits.take(k + 1 - start).last() == s@[k as int]);
        }
        m = m * 10 + ((c - 48) as i64);
        if m > 2147483648 {
            if !all_digits_check(s, start) {
                proof {
                    let j = choose|j: int| start <= j < s@.len() && !is_digit(s@[j]);
                    assert(digits[j - start] == s@[j]);
                    assert(!all_digits(digits));
                }
                return Err(());
            }
            proof {
                assert forall|j: int| 0 <= j < digits.len() implies is_digit(
                    #[trigger] digits[j],
                ) by {
                    assert(digits[j] == s@[j + start]);
                }
                lemma_digits_prefix(digits, k + 1 - start);
                assert(digits_val(digits.take(k + 1 - start)) == m);
                assert(digits_val(digits) > 2147483648);
            }
            return Err(());
        }
        k += 1;
    }
    proof {
        assert(digits.take(n - start) =~= digits);
        assert(digits_val(digits) == m);
        assert forall|j: int| 0 <= j < digits.len() implies is_digit(#[trigger] digits[j]) by {
            assert(digits[j] == s@[j + start]);
        }
    }
    if neg {
        proof {
            assert(parse_val(s@) == -m);
        }
        Ok((-m) as i32)
    } else {
        if m > 2147483647 {
            return Err(());
        }
        Ok(m as i32)
    }
}

/// The bytes `in `, the header marker of an input column.
pub open spec fn in_prefix() -> Seq<u8> {
    seq![105u8, 110u8, 32u8]
}

/// The bytes `out `, the header marker of an output column.
pub open spec fn out_prefix() -> Seq<u8> {
    seq![111u8, 117u8, 116u8, 32u8]
}

/// `s` begins with `p`.
pub open spec fn starts_with(s: Seq<u8>, p: Seq<u8>) -> bool {
    s.len() >= p.len() && s.subrange(0, p.len() as int) == p
}

/// What a header field declares: `Some((true, name))` for an input column,
/// `Some((false, name))` for an output column, `None` for anything else. The
/// field is trimmed first; the name is what follows the marker.
pub open spec fn field_spec(f: Seq<u8>) -> Option<(bool, Seq<u8>)> {
    let t = trim_spec(f);
    if starts_with(t, in_prefix()) {
        Some((true, t.skip(3)))
    } else if starts_with(t, out_prefix()) {
        Some((false, t.skip(4)))
    } else {
        None
    }
}

/// The input (or output) columns among the first `k` header fields: each
/// column's index paired with its declared name, in header order.
pub open spec fn selected(fields: Seq<Seq<u8>>, want_input: bool, k: int) -> Seq<(usize, Seq<u8>)>
    decreases k,
{
    if k <= 0 {
        Seq::empty()
    } else {
        let rest = selected(fields, want_input, k - 1);
        match field_spec(fields[k - 1]) {
            Some(pair) => if pair.0 == want_input {
                rest.push(((k - 1) as usize, pair.1))
            } else {
                rest
            },
            None => rest,
        }
    }
}

/// A bus used as a named input column: a simple pin or an input source.
#[derive(Clone, Copy)]
pub enum InputBus {
    Simple(SimplePin),
    XBus(InputSource),
}

/// A bus used as a named output column: a simple pin or an output sink.
#[derive(Clone, Copy)]
pub enum OutputBus {
    Simple(SimplePin),
    XBus(OutputSink),
}

/// The input bus handle points into the scheduler's board.
pub open spec fn input_bus_ok(bv: BoardView, b: InputBus) -> bool {
    match b {
        InputBus::Simple(p) => 0 <= p@ < bv.pins.len(),
        InputBus::XBus(s) => 0 <= s@ < bv.inputs.len(),
    }
}

/// The output bus handle points into the scheduler's board.
pub open spec fn output_bus_ok(bv: BoardView, b: OutputBus) -> bool {
    match b {
        OutputBus::Simple(p) => 0 <= p@ < bv.pins.len(),
        OutputBus::XBus(s) => 0 <= s@ < bv.outputs.len(),
    }
}

/// Why a replay stopped.
#[derive(Clone, Copy, Debug)]
pub enum VerifyErrorKind {
    /// A header field declares neither `in <name>` nor `out <name>`.
    BadHeaderField,
    /// A data row has no field for a declared column.
    ShortRow,
    /// A field that should hold numbers holds something else.
    UnparsableNumber,
    /// A declared column name is missing from the supplied buses.
    UnknownBusName,
    /// More than one value was given or expected for a simple pin.
    MultipleValuesForSimple,
    /// An output value did not match the expectation.
    WrongValue,
    /// An output bus produced a different number of values than expected.
    WrongCount,
}

/// A replay failure: what went wrong, in which header column, and on which
/// data row (1-based; 0 for header errors). A scheduler failure during the
/// tick is reported separately as the [`SimError`] it was.
#[derive(Clone, Copy, Debug)]
pub struct VerifyError {
    pub kind: VerifyErrorKind,
    pub column: usize,
    pub timestep: usize,
}

/// What stopped a replay row: a shape or value error in the data, or a fatal
/// scheduler condition (deadlock or watchdog) during the tick.
#[derive(Debug)]
pub enum RowError {
    Data(VerifyError),
    Sim(SimError),
}

/// The columns a replay works: the declared input and output columns of the
/// header, and how many data rows have been verified.
pub struct FileRunnerView {
    pub inputs: Seq<(usize, Seq<u8>)>,
    pub outputs: Seq<(usize, Seq<u8>)>,
    pub timesteps: usize,
}

/// Replays test vectors against a scheduler, one comma-separated row per
/// tick: inputs are applied, the scheduler advances, outputs are checked.
pub struct FileRunner {
    inputs: Vec<(usize, Vec<u8>)>,
    outputs: Vec<(usize, Vec<u8>)>,
    timesteps: usize,
}

impl View for FileRunner {
    type V = FileRunnerView;

    closed spec fn view(&self) -> FileRunnerView {
        FileRunnerView {
            inputs: Seq::new(self.inputs@.len(), |i: int| (self.inputs@[i].0, self.inputs@[i].1@)),
            outputs: Seq::new(
                self.outputs@.len(),
                |i: int| (self.outputs@[i].0, self.outputs@[i].1@),
            ),
            timesteps: self.timesteps,
        }
    }
}

impl FileRunner {
    /// How many data rows have been verified so far.
    pub fn timesteps(&self) -> (r: usize)
        ensures
            r == self@.timesteps,
    {
        self.timesteps
    }

    /// Parse a header of comma-separated fields, each `in <name>` or
    /// `out <name>`, into the runner's input and output columns. Any other
    /// field is an error naming its column.
    pub fn new(header: &[u8]) -> (r: Result<FileRunner, VerifyError>)
        ensures
            ({
                let fields = split_spec(header@, 44);
                match r {
                    Ok(fr) => {
                        &&& fr@.inputs == selected(fields, true, fields.len() as int)
                        &&& fr@.outputs == selected(fields, false, fields.len() as int)
                        &&& fr@.timesteps == 0
                        &&& forall|k: int|
                            0 <= k < fields.len() ==> field_spec(#[trigger] fields[k]) is Some
                    },
                    Err(e) => {
                        &&& e.kind is BadHeaderField
                        &&& e.timestep == 0
                        &&& 0 <= e.column < fields.len()
                        &&& field_spec(fields[e.column as int]) is None
                        &&& forall|j: int|
                            0 <= j < e.column ==> field_spec(#[trigger] fields[j]) is Some
                    },
                }
            }),
    {
        let fields = split_bytes(header, 44);
        let n = fields.len();
        let ghost fviews = views_of(fields@);
        let mut inputs: Vec<(usize, Vec<u8>)> = Vec::new();
        let mut outputs: Vec<(usize, Vec<u8>)> = Vec::new();
        let mut k: usize = 0;
        while k < n
            invariant
                k <= n,
                n == fields@.len(),
                fviews == views_of(fields@),
                fviews == split_spec(header@, 44),
                Seq::new(inputs@.len(), |i: int| (inputs@[i].0, inputs@[i].1@)) =~~= selected(
                    fviews,
                    true,
                    k as int,
                ),
                Seq::new(outputs@.len(), |i: int| (outputs@[i].0, outputs@[i].1@)) =~~= selected(
                    fviews,
                    false,
                    k as int,
                ),
                forall|j: int| 0 <= j < k ==> field_spec(#[trigger] fviews[j]) is Some,
            decreases n - k,
        {
            let t = trimmed(fields[k].as_slice());
            proof {
                assert(fviews[k as int] == fields@[k as int]@);
                assert(t@ == trim_spec(fviews[k as int]));
            }
            if t.len() >= 3 && t[0] == 105 && t[1] == 110 && t[2] == 32 {
                proof {
                    assert(t@.subrange(0, 3) =~= in_prefix());
                    assert(starts_with(t@, in_prefix()));
                }
                let name = tail_from(&t, 3);
                inputs.push((k, name));
            } else if t.len() >= 4 && t[0] == 111 && t[1] == 117 && t[2] == 116 && t[3] == 32 {
                proof {
                    assert(t@.subrange(0, 4) =~= out_prefix());
                    assert(starts_with(t@, out_prefix()));
                    assert(!starts_with(t@, in_prefix())) by {
                        assert(in_prefix()[0] == 105u8);
                        assert(starts_with(t@, in_prefix()) ==> t@.subrange(0, 3)[0] == 105u8);
                    }
                }
                let name = tail_from(&t, 4);
                outputs.push((k, name));
            } else {
                proof {
                    assert(!starts_with(t@, in_prefix())) by {
                        if starts_with(t@, in_prefix()) {
                            assert(t@.subrange(0, 3)[0] == t@[0]);
                            assert(t@.subrange(0, 3)[1] == t@[1]);
                            assert(t@.subrange(0, 3)[2] == t@[2]);
                        }
                    }
                    assert(!starts_with(t@, out_prefix())) by {
                        if starts_with(t@, out_prefix()) {
                            assert(t@.subrange(0, 4)[0] == t@[0]);
                            assert(t@.subrange(0, 4)[1] == t@[1]);
                            assert(t@.subrange(0, 4)[2] == t@[2]);
                            assert(t@.subrange(0, 4)[3] == t@[3]);
                        }
                    }
                    assert(field_spec(fviews[k as int]) is None);
                }
                return Err(VerifyError { kind: VerifyErrorKind::BadHeaderField, column: k, timestep: 0 });
            }
            k += 1;
        }
        let fr = FileRunner { inputs, outputs, timesteps: 0 };
        proof {
            assert(fr@.inputs =~~= selected(fviews, true, n as int));
            assert(fr@.outputs =~~= selected(fviews, false, n as int));
        }
        Ok(fr)
    }
}
/// The supplied input buses as the specs see them: each name's bytes paired
/// with its bus.
pub open spec fn input_list_view(l: Seq<(Vec<u8>, InputBus)>) -> Seq<(Seq<u8>, InputBus)> {
    Seq::new(l.len(), |i: int| (l[i].0@, l[i].1))
}

/// The supplied output buses as the specs see them.
pub open spec fn output_list_view(l: Seq<(Vec<u8>, OutputBus)>) -> Seq<(Seq<u8>, OutputBus)> {
    Seq::new(l.len(), |i: int| (l[i].0@, l[i].1))
}

/// The first input bus supplied under this name, if any.
pub open spec fn lookup_input_spec(list: Seq<(Seq<u8>, InputBus)>, name: Seq<u8>) -> Option<
    InputBus,
>
    decreases list.len(),
{
    if list.len() == 0 {
        None
    } else if list[0].0 == name {
        Some(list[0].1)
    } else {
        lookup_input_spec(list.drop_first(), name)
    }
}

/// The first output bus supplied under this name, if any.
pub open spec fn lookup_output_spec(list: Seq<(Seq<u8>, OutputBus)>, name: Seq<u8>) -> Option<
    OutputBus,
>
    decreases list.len(),
{
    if list.len() == 0 {
        None
    } else if list[0].0 == name {
        Some(list[0].1)
    } else {
        lookup_output_spec(list.drop_first(), name)
    }
}

/// Queue the values of a multi-value input field on a source, in order,
/// stopping at the first value that does not parse. Yields the error, if any,
/// and the board as far as the injections got.
pub open spec fn inject_list(bv: BoardView, sid: int, values: Seq<Seq<u8>>, j: int) -> (
    Option<VerifyErrorKind>,
    BoardView,
)
    decreases values.len() - j,
{
    if !(0 <= j < values.len()) {
        (None, bv)
    } else if !parse_ok(values[j]) {
        (Some(VerifyErrorKind::UnparsableNumber), bv)
    } else {
        inject_list(
            bv.set_input(
                sid,
                InputView {
                    queue: bv.inputs[sid].queue.push(parse_val(values[j]) as i32),
                    ..bv.inputs[sid]
                },
            ),
            sid,
            values,
            j + 1,
        )
    }
}

/// Apply one declared input column of a row: a blank field leaves the input
/// unchanged; a simple pin takes exactly one parsed value; a source takes
/// every space-separated value in order.
pub open spec fn apply_one_input(
    bv: BoardView,
    col: usize,
    name: Seq<u8>,
    fields: Seq<Seq<u8>>,
    list: Seq<(Seq<u8>, InputBus)>,
) -> (Option<VerifyErrorKind>, BoardView) {
    if col >= fields.len() {
        (Some(VerifyErrorKind::ShortRow), bv)
    } else {
        let field = trim_spec(fields[col as int]);
        if field.len() == 0 {
            (None, bv)
        } else {
            match lookup_input_spec(list, name) {
                None => (Some(VerifyErrorKind::UnknownBusName), bv),
                Some(InputBus::Simple(p)) => {
                    let values = split_spec(field, 32);
                    if values.len() > 1 {
                        (Some(VerifyErrorKind::MultipleValuesForSimple), bv)
                    } else if !parse_ok(values[0]) {
                        (Some(VerifyErrorKind::UnparsableNumber), bv)
                    } else {
                        (
                            None,
                            BoardView {
                                pins: bv.pins.update(p@, parse_val(values[0]) as i32),
                                ..bv
                            },
                        )
                    }
                },
                Some(InputBus::XBus(s)) => inject_list(bv, s@, split_spec(field, 32), 0),
            }
        }
    }
}

/// Apply the declared input columns from `k` on, in declaration order,
/// stopping at the first failure: the error with its column, if any, and the
/// board as far as the application got.
pub open spec fn apply_inputs_spec(
    bv: BoardView,
    cols: Seq<(usize, Seq<u8>)>,
    k: int,
    fields: Seq<Seq<u8>>,
    list: Seq<(Seq<u8>, InputBus)>,
) -> (Option<(VerifyErrorKind, usize)>, BoardView)
    decreases cols.len() - k,
{
    if !(0 <= k < cols.len()) {
        (None, bv)
    } else {
        let step = apply_one_input(bv, cols[k].0, cols[k].1, fields, list);
        match step.0 {
            Some(kind) => (Some((kind, cols[k].0)), step.1),
            None => apply_inputs_spec(step.1, cols, k + 1, fields, list),
        }
    }
}

/// Compare a sink's drained values against the expected list from `j` on:
/// the first expectation that does not parse or does not match, if any.
pub open spec fn compare_values(expected: Seq<Seq<u8>>, actual: Seq<i32>, j: int) -> Option<
    VerifyErrorKind,
>
    decreases expected.len() - j,
{
    if !(0 <= j < expected.len()) {
        None
    } else if !parse_ok(expected[j]) {
        Some(VerifyErrorKind::UnparsableNumber)
    } else if parse_val(expected[j]) != actual[j] as int {
        Some(VerifyErrorKind::WrongValue)
    } else {
        compare_values(expected, actual, j + 1)
    }
}

/// Check one declared output column of a row. A blank simple-pin field is not
/// checked; a nonblank one must hold exactly one parsed value equal to the
/// pin. A sink is always drained; a blank field requires it to have been
/// silent, a nonblank one requires the drained values to equal the parsed
/// list.
pub open spec fn check_one_output(
    bv: BoardView,
    col: usize,
    name: Seq<u8>,
    fields: Seq<Seq<u8>>,
    list: Seq<(Seq<u8>, OutputBus)>,
) -> (Option<VerifyErrorKind>, BoardView) {
    if col >= fields.len() {
        (Some(VerifyErrorKind::ShortRow), bv)
    } else {
        let field = trim_spec(fields[col as int]);
        match lookup_output_spec(list, name) {
            None => (Some(VerifyErrorKind::UnknownBusName), bv),
            Some(OutputBus::Simple(p)) => {
                if field.len() == 0 {
                    (None, bv)
                } else {
                    let values = split_spec(field, 32);
                    if values.len() > 1 {
                        (Some(VerifyErrorKind::MultipleValuesForSimple), bv)
                    } else if !parse_ok(values[0]) {
                        (Some(VerifyErrorKind::UnparsableNumber), bv)
                    } else if parse_val(values[0]) != bv.pins[p@] as int {
                        (Some(VerifyErrorKind::WrongValue), bv)
                    } else {
                        (None, bv)
                    }
                }
            },
            Some(OutputBus::XBus(s)) => {
                let actual = bv.outputs[s@].queue;
                let drained = bv.set_output(s@, OutputView { queue: Seq::empty() });
                if field.len() == 0 {
                    if actual.len() > 0 {
                        (Some(VerifyErrorKind::WrongCount), drained)
                    } else {
                        (None, drained)
                    }
                } else {
                    let expected = split_spec(field, 32);
                    if expected.len() != actual.len() {
                        (Some(VerifyErrorKind::WrongCount), drained)
                    } else {
                        (compare_values(expected, actual, 0), drained)
                    }
                }
            },
        }
    }
}

/// Check the declared output columns from `k` on, in declaration order,
/// stopping at the first failure: the error with its column, if any, and the
/// board with the visited sinks drained.
pub open spec fn check_outputs_spec(
    bv: BoardView,
    cols: Seq<(usize, Seq<u8>)>,
    k: int,
    fields: Seq<Seq<u8>>,
    list: Seq<(Seq<u8>, OutputBus)>,
) -> (Option<(VerifyErrorKind, usize)>, BoardView)
    decreases cols.len() - k,
{
    if !(0 <= k < cols.len()) {
        (None, bv)
    } else {
        let step = check_one_output(bv, cols[k].0, cols[k].1, fields, list);
        match step.0 {
            Some(kind) => (Some((kind, cols[k].0)), step.1),
            None => check_outputs_spec(step.1, cols, k + 1, fields, list),
        }
    }
}

/// One declared output column has passed its check, as the state after the
/// checks shows it: the column exists, its name is supplied, a nonblank
/// simple-pin expectation parses to the pin's value, and a checked sink stands
/// drained with every expectation parsed.
pub open spec fn output_column_passed(
    bv: BoardView,
    col: usize,
    name: Seq<u8>,
    fields: Seq<Seq<u8>>,
    list: Seq<(Seq<u8>, OutputBus)>,
) -> bool {
    &&& (col as int) < fields.len()
    &&& match lookup_output_spec(list, name) {
        None => false,
        Some(OutputBus::Simple(p)) => {
            let field = trim_spec(fields[col as int]);
            ||| field.len() == 0
            ||| {
                let values = split_spec(field, 32);
                &&& values.len() == 1
                &&& parse_ok(values[0])
                &&& parse_val(values[0]) == bv.pins[p@] as int
            }
        },
        Some(OutputBus::XBus(s)) => {
            let field = trim_spec(fields[col as int]);
            &&& bv.outputs[s@].queue.len() == 0
            &&& (field.len() == 0 || forall|j: int|
                0 <= j < split_spec(field, 32).len() ==> parse_ok(#[trigger] split_spec(field, 32)[j]))
        },
    }
}

/// Every declared output column has passed its check.
pub open spec fn outputs_pass(
    bv: BoardView,
    cols: Seq<(usize, Seq<u8>)>,
    fields: Seq<Seq<u8>>,
    list: Seq<(Seq<u8>, OutputBus)>,
) -> bool {
    forall|k: int|
        0 <= k < cols.len() ==> output_column_passed(
            bv,
            (#[trigger] cols[k]).0,
            cols[k].1,
            fields,
            list,
        )
}

/// A found bus was one of the supplied ones.
proof fn lemma_lookup_in_member(list: Seq<(Seq<u8>, InputBus)>, name: Seq<u8>)
    requires
        lookup_input_spec(list, name) is Some,
    ensures
        exists|k: int|
            0 <= k < list.len() && (#[trigger] list[k]).1 == lookup_input_spec(
                list,
                name,
            ).unwrap(),
    decreases list.len(),
{
    if list.len() > 0 && list[0].0 != name {
        lemma_lookup_in_member(list.drop_first(), name);
        let k = choose|k: int|
            0 <= k < list.drop_first().len() && (#[trigger] list.drop_first()[k]).1
                == lookup_input_spec(list.drop_first(), name).unwrap();
        assert(list[k + 1] == list.drop_first()[k]);
    }
}

/// A found bus was one of the supplied ones.
proof fn lemma_lookup_out_member(list: Seq<(Seq<u8>, OutputBus)>, name: Seq<u8>)
    requires
        lookup_output_spec(list, name) is Some,
    ensures
        exists|k: int|
            0 <= k < list.len() && (#[trigger] list[k]).1 == lookup_output_spec(
                list,
                name,
            ).unwrap(),
    decreases list.len(),
{
    if list.len() > 0 && list[0].0 != name {
        lemma_lookup_out_member(list.drop_first(), name);
        let k = choose|k: int|
            0 <= k < list.drop_first().len() && (#[trigger] list.drop_first()[k]).1
                == lookup_output_spec(list.drop_first(), name).unwrap();
        assert(list[k + 1] == list.drop_first()[k]);
    }
}

/// When every expectation down the list matched, every one of them parsed.
proof fn lemma_compare_none_parses(expected: Seq<Seq<u8>>, actual: Seq<i32>, j: int)
    requires
        0 <= j,
        compare_values(expected, actual, j) is None,
    ensures
        forall|t: int| j <= t < expected.len() ==> parse_ok(#[trigger] expected[t]),
    decreases expected.len() - j,
{
    if j < expected.len() {
        lemma_compare_none_parses(expected, actual, j + 1);
    }
}

/// When the output fold reports no error, every column it visited passed, as
/// seen in the state the fold leaves behind: the checks only drain sinks, so
/// pins keep their values and drained sinks stay drained.
proof fn lemma_check_ok_passes(
    bv: BoardView,
    cols: Seq<(usize, Seq<u8>)>,
    k: int,
    fields: Seq<Seq<u8>>,
    list: Seq<(Seq<u8>, OutputBus)>,
)
    requires
        0 <= k <= cols.len(),
        check_outputs_spec(bv, cols, k, fields, list).0 is None,
        forall|l: int| 0 <= l < list.len() ==> output_bus_ok(bv, (#[trigger] list[l]).1),
    ensures
        ({
            let after = check_outputs_spec(bv, cols, k, fields, list).1;
            &&& after.pins == bv.pins
            &&& after.outputs.len() == bv.outputs.len()
            &&& forall|o: int|
                0 <= o < bv.outputs.len() ==> ((#[trigger] after.outputs[o]).queue
                    == bv.outputs[o].queue || after.outputs[o].queue == Seq::<i32>::empty())
            &&& forall|t: int|
                k <= t < cols.len() ==> output_column_passed(
                    after,
                    (#[trigger] cols[t]).0,
                    cols[t].1,
                    fields,
                    list,
                )
        }),
    decreases cols.len() - k,
{
    if k < cols.len() {
        let step = check_one_output(bv, cols[k].0, cols[k].1, fields, list);
        let bv1 = step.1;
        assert(step.0 is None);
        assert((cols[k].0 as int) < fields.len());
        match lookup_output_spec(list, cols[k].1) {
            None => {
                assert(false);
            },
            Some(OutputBus::Simple(_)) => {
                assert(bv1 == bv);
            },
            Some(OutputBus::XBus(s)) => {
                lemma_lookup_out_member(list, cols[k].1);
                assert(0 <= s@ < bv.outputs.len());
            },
        }
        assert(bv1.pins == bv.pins);
        assert(bv1.outputs.len() == bv.outputs.len());
        assert forall|l: int| 0 <= l < list.len() implies output_bus_ok(
            bv1,
            (#[trigger] list[l]).1,
        ) by {
            assert(output_bus_ok(bv, list[l].1));
        }
        lemma_check_ok_passes(bv1, cols, k + 1, fields, list);
        let after = check_outputs_spec(bv, cols, k, fields, list).1;
        assert(after == check_outputs_spec(bv1, cols, k + 1, fields, list).1);
        assert forall|o: int|
            0 <= o < bv.outputs.len() implies ((#[trigger] after.outputs[o]).queue
            == bv.outputs[o].queue || after.outputs[o].queue == Seq::<i32>::empty()) by {
            assert(after.outputs[o].queue == bv1.outputs[o].queue || after.outputs[o].queue
                == Seq::<i32>::empty());
        }
        assert(output_column_passed(after, cols[k].0, cols[k].1, fields, list)) by {
            let field = trim_spec(fields[cols[k].0 as int]);
            match lookup_output_spec(list, cols[k].1) {
                None => {
                    assert(false);
                },
                Some(OutputBus::Simple(p)) => {
                    assert(after.pins == bv.pins);
                },
                Some(OutputBus::XBus(s)) => {
                    lemma_lookup_out_member(list, cols[k].1);
                    assert(0 <= s@ < bv.outputs.len());
                    assert(bv1.outputs[s@].queue == Seq::<i32>::empty());
                    assert(after.outputs[s@].queue == Seq::<i32>::empty());
                    if field.len() > 0 {
                        let expected = split_spec(field, 32);
                        let actual = bv.outputs[s@].queue;
                        assert(compare_values(expected, actual, 0) is None);
                        lemma_compare_none_parses(expected, actual, 0);
                    }
                },
            }
        }
        assert forall|t: int|
            k <= t < cols.len() implies output_column_passed(
            after,
            (#[trigger] cols[t]).0,
            cols[t].1,
            fields,
            list,
        ) by {
            if t > k {
                assert(output_column_passed(after, cols[t].0, cols[t].1, fields, list));
            }
        }
    }
}

/// Whether two byte strings are equal.
fn bytes_eq(a: &[u8], b: &[u8]) -> (r: bool)
    ensures
        r == (a@ == b@),
{
    let n = a.len();
    if n != b.len() {
        proof {
            assert(a@ != b@);
        }
        return false;
    }
    let mut k: usize = 0;
    while k < n
        invariant
            k <= n,
            n == a@.len(),
            n == b@.len(),
            forall|j: int| 0 <= j < k ==> a@[j] == b@[j],
        decreases n - k,
    {
        if a[k] != b[k] {
            return false;
        }
        k += 1;
    }
    proof {
        assert(a@ =~= b@);
    }
    true
}

/// The first input bus supplied under this name, if any.
fn lookup_input(list: &Vec<(Vec<u8>, InputBus)>, name: &[u8]) -> (r: Option<InputBus>)
    ensures
        r == lookup_input_spec(input_list_view(list@), name@),
{
    let ghost lv = input_list_view(list@);
    proof {
        assert(lv.skip(0) =~= lv);
    }
    let n = list.len();
    let mut k: usize = 0;
    while k < n
        invariant
            k <= n,
            n == list@.len(),
            lv == input_list_view(list@),
            lookup_input_spec(lv, name@) == lookup_input_spec(lv.skip(k as int), name@),
        decreases n - k,
    {
        if bytes_eq(list[k].0.as_slice(), name) {
            proof {
                assert(lv.skip(k as int)[0] == lv[k as int]);
            }
            return Some(list[k].1);
        }
        proof {
            assert(lv.skip(k as int)[0] == lv[k as int]);
            assert(lv.skip(k as int).drop_first() =~= lv.skip(k + 1 as int));
        }
        k += 1;
    }
    proof {
        assert(lv.skip(n as int).len() == 0);
    }
    None
}

/// The first output bus supplied under this name, if any.
fn lookup_output(list: &Vec<(Vec<u8>, OutputBus)>, name: &[u8]) -> (r: Option<OutputBus>)
    ensures
        r == lookup_output_spec(output_list_view(list@), name@),
{
    let ghost lv = output_list_view(list@);
    proof {
        assert(lv.skip(0) =~= lv);
    }
    let n = list.len();
    let mut k: usize = 0;
    while k < n
        invariant
            k <= n,
            n == list@.len(),
            lv == output_list_view(list@),
            lookup_output_spec(lv, name@) == lookup_output_spec(lv.skip(k as int), name@),
        decreases n - k,
    {
        if bytes_eq(list[k].0.as_slice(), name) {
            proof {
                assert(lv.skip(k as int)[0] == lv[k as int]);
            }
            return Some(list[k].1);
        }
        proof {
            assert(lv.skip(k as int)[0] == lv[k as int]);
            assert(lv.skip(k as int).drop_first() =~= lv.skip(k + 1 as int));
        }
        k += 1;
    }
    proof {
        assert(lv.skip(n as int).len() == 0);
    }
    None
}

impl FileRunner {
    /// Apply every declared input column of the row to the scheduler's board,
    /// in declaration order, exactly per [`apply_inputs_spec`]: a blank field
    /// leaves its input unchanged, a simple pin takes one parsed value, a
    /// source takes every space-separated value in order; the first failing
    /// column stops the application and names itself.
    #[verifier::loop_isolation(false)]
    pub fn apply_inputs(
        &self,
        sched: &mut Scheduler,
        fields: &Vec<Vec<u8>>,
        inputs: &Vec<(Vec<u8>, InputBus)>,
    ) -> (r: Result<(), VerifyError>)
        requires
            old(sched).inv_ok(),
            self@.timesteps < usize::MAX,
            forall|k: int|
                0 <= k < inputs@.len() ==> input_bus_ok(
                    old(sched)@.board,
                    (#[trigger] inputs@[k]).1,
                ),
        ensures
            final(sched).inv_ok(),
            final(sched).wf() == old(sched).wf(),
            board_lens(final(sched)@.board, old(sched)@.board),
            ({
                let (err, applied) = apply_inputs_spec(
                    old(sched)@.board,
                    self@.inputs,
                    0,
                    views_of(fields@),
                    input_list_view(inputs@),
                );
                &&& final(sched)@ == (SchedulerView { board: applied, ..old(sched)@ })
                &&& match err {
                    Some(ec) => r matches Err(e) && e.kind == ec.0 && e.column == ec.1
                        && e.timestep == self@.timesteps + 1,
                    None => r is Ok,
                }
            }),
    {
        let ghost fv = views_of(fields@);
        let ghost lv = input_list_view(inputs@);
        let ghost cols = self@.inputs;
        let row = self.timesteps + 1;
        let n_in = self.inputs.len();
        let mut idx: usize = 0;
        while idx < n_in
            invariant
                idx <= n_in,
                n_in == self.inputs@.len(),
                cols == self@.inputs,
                fv == views_of(fields@),
                lv == input_list_view(inputs@),
                row == self@.timesteps + 1,
                sched.inv_ok(),
                sched.wf() == old(sched).wf(),
                sched@ == (SchedulerView { board: sched@.board, ..old(sched)@ }),
                board_lens(sched@.board, old(sched)@.board),
                apply_inputs_spec(old(sched)@.board, cols, 0, fv, lv) == apply_inputs_spec(
                    sched@.board,
                    cols,
                    idx as int,
                    fv,
                    lv,
                ),
            decreases n_in - idx,
        {
            let col = self.inputs[idx].0;
            proof {
                assert(cols[idx as int] == (self.inputs@[idx as int].0, self.inputs@[idx as int].1@));
            }
            if col >= fields.len() {
                return Err(VerifyError { kind: VerifyErrorKind::ShortRow, column: col, timestep: row });
            }
            let field = trimmed(fields[col].as_slice());
            proof {
                assert(fv[col as int] == fields@[col as int]@);
            }
            if field.len() > 0 {
                match lookup_input(inputs, self.inputs[idx].1.as_slice()) {
                    None => {
                        return Err(VerifyError {
                            kind: VerifyErrorKind::UnknownBusName,
                            column: col,
                            timestep: row,
                        });
                    },
                    Some(InputBus::Simple(p)) => {
                        let values = split_bytes(field.as_slice(), 32);
                        if values.len() > 1 {
                            return Err(VerifyError {
                                kind: VerifyErrorKind::MultipleValuesForSimple,
                                column: col,
                                timestep: row,
                            });
                        }
                        proof {
                            assert(values@.len() == views_of(values@).len());
                            assert(split_spec(field@, 32).len() >= 1);
                            lemma_lookup_in_member(lv, cols[idx as int].1);
                        }
                        match parse_i32(values[0].as_slice()) {
                            Err(_) => {
                                return Err(VerifyError {
                                    kind: VerifyErrorKind::UnparsableNumber,
                                    column: col,
                                    timestep: row,
                                });
                            },
                            Ok(v) => {
                                sched.pin_store(p, v);
                            },
                        }
                    },
                    Some(InputBus::XBus(src)) => {
                        let values = split_bytes(field.as_slice(), 32);
                        proof {
                            lemma_lookup_in_member(lv, cols[idx as int].1);
                        }
                        let ghost bv0 = sched@.board;
                        let ghost vv = views_of(values@);
                        let nv = values.len();
                        let mut j: usize = 0;
                        while j < nv
                            invariant
                                j <= nv,
                                nv == values@.len(),
                                vv == views_of(values@),
                                sched.inv_ok(),
                                sched.wf() == old(sched).wf(),
                                sched@ == (SchedulerView { board: sched@.board, ..old(sched)@ }),
                                board_lens(sched@.board, old(sched)@.board),
                                0 <= src@ < sched@.board.inputs.len(),
                                inject_list(bv0, src@, vv, 0) == inject_list(
                                    sched@.board,
                                    src@,
                                    vv,
                                    j as int,
                                ),
                            decreases nv - j,
                        {
                            match parse_i32(values[j].as_slice()) {
                                Err(_) => {
                                    return Err(VerifyError {
                                        kind: VerifyErrorKind::UnparsableNumber,
                                        column: col,
                                        timestep: row,
                                    });
                                },
                                Ok(v) => {
                                    src.inject(sched, v);
                                },
                            }
                            j += 1;
                        }
                    },
                }
            }
            idx += 1;
        }
        Ok(())
    }

    /// Check every declared output column of the row against the scheduler's
    /// board, in declaration order, exactly per [`check_outputs_spec`]: each
    /// sink it reaches is drained; the first failing check stops the pass and
    /// names its column.
    #[verifier::loop_isolation(false)]
    pub fn check_outputs(
        &self,
        sched: &mut Scheduler,
        fields: &Vec<Vec<u8>>,
        outputs: &Vec<(Vec<u8>, OutputBus)>,
    ) -> (r: Result<(), VerifyError>)
        requires
            old(sched).inv_ok(),
            forall|k: int|
                0 <= k < outputs@.len() ==> output_bus_ok(
                    old(sched)@.board,
                    (#[trigger] outputs@[k]).1,
                ),
        ensures
            final(sched).inv_ok(),
            final(sched).wf() == old(sched).wf(),
            board_lens(final(sched)@.board, old(sched)@.board),
            ({
                let (err, checked) = check_outputs_spec(
                    old(sched)@.board,
                    self@.outputs,
                    0,
                    views_of(fields@),
                    output_list_view(outputs@),
                );
                &&& final(sched)@ == (SchedulerView { board: checked, ..old(sched)@ })
                &&& match err {
                    Some(ec) => r matches Err(e) && e.kind == ec.0 && e.column == ec.1
                        && e.timestep == self@.timesteps,
                    None => r is Ok,
                }
            }),
    {
        let ghost fv = views_of(fields@);
        let ghost lv = output_list_view(outputs@);
        let ghost cols = self@.outputs;
        let row = self.timesteps;
        let n_out = self.outputs.len();
        let mut idx: usize = 0;
        while idx < n_out
            invariant
                idx <= n_out,
                n_out == self.outputs@.len(),
                cols == self@.outputs,
                fv == views_of(fields@),
                lv == output_list_view(outputs@),
                row == self@.timesteps,
                sched.inv_ok(),
                sched.wf() == old(sched).wf(),
                sched@ == (SchedulerView { board: sched@.board, ..old(sched)@ }),
                board_lens(sched@.board, old(sched)@.board),
                check_outputs_spec(old(sched)@.board, cols, 0, fv, lv) == check_outputs_spec(
                    sched@.board,
                    cols,
                    idx as int,
                    fv,
                    lv,
                ),
            decreases n_out - idx,
        {
            let col = self.outputs[idx].0;
            proof {
                assert(cols[idx as int] == (
                    self.outputs@[idx as int].0,
                    self.outputs@[idx as int].1@,
                ));
            }
            if col >= fields.len() {
                return Err(VerifyError { kind: VerifyErrorKind::ShortRow, column: col, timestep: row });
            }
            let field = trimmed(fields[col].as_slice());
            proof {
                assert(fv[col as int] == fields@[col as int]@);
            }
            match lookup_output(outputs, self.outputs[idx].1.as_slice()) {
                None => {
                    return Err(VerifyError {
                        kind: VerifyErrorKind::UnknownBusName,
                        column: col,
                        timestep: row,
                    });
                },
                Some(OutputBus::Simple(p)) => {
                    if field.len() > 0 {
                        let values = split_bytes(field.as_slice(), 32);
                        if values.len() > 1 {
                            return Err(VerifyError {
                                kind: VerifyErrorKind::MultipleValuesForSimple,
                                column: col,
                                timestep: row,
                            });
                        }
                        proof {
                            assert(values@.len() == views_of(values@).len());
                            assert(split_spec(field@, 32).len() >= 1);
                            lemma_lookup_out_member(lv, cols[idx as int].1);
                        }
                        match parse_i32(values[0].as_slice()) {
                            Err(_) => {
                                return Err(VerifyError {
                                    kind: VerifyErrorKind::UnparsableNumber,
                                    column: col,
                                    timestep: row,
                                });
                            },
                            Ok(expect) => {
                                let actual = sched.pin_load(p);
                                if actual != expect {
                                    return Err(VerifyError {
                                        kind: VerifyErrorKind::WrongValue,
                                        column: col,
                                        timestep: row,
                                    });
                                }
                            },
                        }
                    }
                },
                Some(OutputBus::XBus(sink)) => {
                    proof {
                        lemma_lookup_out_member(lv, cols[idx as int].1);
                    }
                    let mut actual: Vec<i32> = Vec::new();
                    sink.queue_into(sched, &mut actual);
                    if field.len() > 0 {
                        let expected = split_bytes(field.as_slice(), 32);
                        let ghost ev = views_of(expected@);
                        let ne = expected.len();
                        if ne != actual.len() {
                            return Err(VerifyError {
                                kind: VerifyErrorKind::WrongCount,
                                column: col,
                                timestep: row,
                            });
                        }
                        let mut j: usize = 0;
                        while j < ne
                            invariant
                                j <= ne,
                                ne == expected@.len(),
                                ne == actual@.len(),
                                ev == views_of(expected@),
                                compare_values(ev, actual@, 0) == compare_values(
                                    ev,
                                    actual@,
                                    j as int,
                                ),
                            decreases ne - j,
                        {
                            match parse_i32(expected[j].as_slice()) {
                                Err(_) => {
                                    return Err(VerifyError {
                                        kind: VerifyErrorKind::UnparsableNumber,
                                        column: col,
                                        timestep: row,
                                    });
                                },
                                Ok(e) => {
                                    if e != actual[j] {
                                        return Err(VerifyError {
                                            kind: VerifyErrorKind::WrongValue,
                                            column: col,
                                            timestep: row,
                                        });
                                    }
                                },
                            }
                            j += 1;
                        }
                    } else {
                        if actual.len() > 0 {
                            return Err(VerifyError {
                                kind: VerifyErrorKind::WrongCount,
                                column: col,
                                timestep: row,
                            });
                        }
                    }
                },
            }
            idx += 1;
        }
        Ok(())
    }

    /// Replay one data row: apply every declared input from its field, advance
    /// the scheduler one tick, then check every declared output against its
    /// field. The three phases are [`FileRunner::apply_inputs`], one
    /// [`Scheduler::advance`], and [`FileRunner::check_outputs`]; each phase
    /// stops the row at its first failure.
    ///
    /// A blank input field leaves that input unchanged. A multi-value field
    /// (values separated by spaces) queues each value on an input source in
    /// order, and is an error on a simple pin. A blank simple-output field is
    /// not checked; a blank sink-output field asserts the sink stayed silent
    /// this tick. The supplied bus lists pair each declared column name with
    /// its bus.
    #[verifier::loop_isolation(false)]
    pub fn verify(
        &mut self,
        sched: &mut Scheduler,
        line: &[u8],
        inputs: &Vec<(Vec<u8>, InputBus)>,
        outputs: &Vec<(Vec<u8>, OutputBus)>,
    ) -> (r: Result<(), RowError>)
        requires
            old(sched).wf(),
            old(sched)@.time < u32::MAX,
            old(self)@.timesteps < usize::MAX,
            forall|k: int|
                0 <= k < inputs@.len() ==> input_bus_ok(
                    old(sched)@.board,
                    (#[trigger] inputs@[k]).1,
                ),
            forall|k: int|
                0 <= k < outputs@.len() ==> output_bus_ok(
                    old(sched)@.board,
                    (#[trigger] outputs@[k]).1,
                ),
        ensures
            final(sched).inv_ok(),
            final(sched)@.sleepers.len() == old(sched)@.sleepers.len(),
            board_lens(final(sched)@.board, old(sched)@.board),
            final(self)@.inputs == old(self)@.inputs,
            final(self)@.outputs == old(self)@.outputs,
            r is Ok ==> final(sched).wf() && final(sched)@.time == old(sched)@.time + 1
                && final(self)@.timesteps == old(self)@.timesteps + 1,
            ({
                let fields = split_spec(line@, 44);
                let (ierr, applied) = apply_inputs_spec(
                    old(sched)@.board,
                    old(self)@.inputs,
                    0,
                    fields,
                    input_list_view(inputs@),
                );
                match ierr {
                    Some(ec) => {
                        &&& r matches Err(RowError::Data(e)) && e.kind == ec.0 && e.column == ec.1
                            && e.timestep == old(self)@.timesteps + 1
                        &&& final(sched)@ == (SchedulerView { board: applied, ..old(sched)@ })
                        &&& final(self)@ == old(self)@
                    },
                    None => {
                        &&& final(sched)@.time == old(sched)@.time + 1
                        &&& (r matches Err(RowError::Sim(_)) ==> final(self)@ == old(self)@)
                        &&& (!(r matches Err(RowError::Sim(_))) ==> final(self)@.timesteps
                            == old(self)@.timesteps + 1 && final(sched).wf() && (match r {
                            Ok(()) => outputs_pass(
                                final(sched)@.board,
                                old(self)@.outputs,
                                fields,
                                output_list_view(outputs@),
                            ),
                            Err(RowError::Data(e)) => e.timestep == old(self)@.timesteps + 1,
                            _ => false,
                        }))
                    },
                }
            }),
    {
        let fields = split_bytes(line, 44);
        match self.apply_inputs(sched, &fields, inputs) {
            Err(e) => {
                return Err(RowError::Data(e));
            },
            Ok(()) => {},
        }
        match sched.advance() {
            Err(e) => {
                return Err(RowError::Sim(e));
            },
            Ok(()) => {},
        }
        let ghost mid = sched@;
        self.timesteps = self.timesteps + 1;
        proof {
            assert forall|k: int| 0 <= k < outputs@.len() implies output_bus_ok(
                mid.board,
                (#[trigger] outputs@[k]).1,
            ) by {
                assert(output_bus_ok(old(sched)@.board, outputs@[k].1));
            }
        }
        match self.check_outputs(sched, &fields, outputs) {
            Err(e) => {
                return Err(RowError::Data(e));
            },
            Ok(()) => {},
        }
        proof {
            let (oerr, checked) = check_outputs_spec(
                mid.board,
                self@.outputs,
                0,
                views_of(fields@),
                output_list_view(outputs@),
            );
            assert(oerr is None);
            lemma_check_ok_passes(
                mid.board,
                self@.outputs,
                0,
                views_of(fields@),
                output_list_view(outputs@),
            );
        }
        Ok(())
    }
}

/// The bytes of `t` from position `from` on, as a fresh vector.
fn tail_from(t: &Vec<u8>, from: usize) -> (r: Vec<u8>)
    requires
        from <= t@.len(),
    ensures
        r@ == t@.skip(from as int),
{
    let n = t.len();
    let mut r: Vec<u8> = Vec::new();
    let mut k: usize = from;
    while k < n
        invariant
            from <= k <= n,
            n == t@.len(),
            r@ =~= t@.subrange(from as int, k as int),
        decreases n - k,
    {
        r.push(t[k]);
        proof {
            assert(r@ =~= t@.subrange(from as int, k + 1 as int));
        }
        k += 1;
    }
    proof {
        assert(r@ =~= t@.skip(from as int));
    }
    r
}

/// Whether every byte from `start` on is a digit.
fn all_digits_check(s: &[u8], start: usize) -> (r: bool)
    requires
        start <= s@.len(),
    ensures
        r == forall|j: int| start <= j < s@.len() ==> is_digit(#[trigger] s@[j]),
{
    let n = s.len();
    let mut k: usize = start;
    while k < n
        invariant
            start <= k <= n,
            n == s@.len(),
            forall|j: int| start <= j < k ==> is_digit(#[trigger] s@[j]),
        decreases n - k,
    {
        if s[k] < 48 || s[k] > 57 {
            return false;
        }
        k += 1;
    }
    true
}

} // verus!
