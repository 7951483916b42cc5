//! IES (LM-63) photometric files: the header, the run of numeric tokens behind
//! it, and the candela table they spell out.
//!
//! Reading a token as a number is the caller's part; the file's grammar, the
//! table's layout and every error are settled here.
use vstd::prelude::*;

use crate::single::Single;
use crate::text;

verus! {

#[derive(Clone, Copy, Debug, PartialEq, Eq, Structural)]
pub enum IesPhotometricType {
    /// Type C, most architectural fixtures.
    C,
    /// Type B, floodlights.
    B,
    /// Type A, automotive headlamps.
    A,
}

#[derive(Debug, PartialEq)]
pub enum IesParseError {
    /// The `TILT=` line, mandatory in LM-63, is missing.
    MissingTilt,
    /// The token at a position is not a number.
    MalformedNumber(usize, String),
    /// The photometric type is none of `1`, `2` and `3`.
    UnknownPhotometricType(String),
    /// The file ends before the table does.
    TruncatedCandelaTable { expected: usize, got: usize },
}

/// An error by what it says.
pub enum IesFault {
    MissingTilt,
    MalformedNumber(int, Seq<char>),
    UnknownPhotometricType(Seq<char>),
    TruncatedCandelaTable { expected: int, got: int },
}

impl View for IesParseError {
    type V = IesFault;

    open spec fn view(&self) -> IesFault {
        match self {
            IesParseError::MissingTilt => IesFault::MissingTilt,
            IesParseError::MalformedNumber(at, t) => IesFault::MalformedNumber(*at as int, t@),
            IesParseError::UnknownPhotometricType(t) => IesFault::UnknownPhotometricType(t@),
            IesParseError::TruncatedCandelaTable { expected, got } => {
                IesFault::TruncatedCandelaTable { expected: *expected as int, got: *got as int }
            },
        }
    }
}

/// A photometric profile: the candela table and what goes with it.
#[derive(Debug, PartialEq)]
pub struct IesProfile {
    pub source: String,
    pub lamp_count: u32,
    pub lumens_per_lamp: Single,
    pub candela_multiplier: Single,
    pub vertical_angles: Vec<Single>,
    pub horizontal_angles: Vec<Single>,
    /// Candela values, indexed `[h_idx * vertical_angles.len() + v_idx]`.
    pub candela: Vec<Single>,
    pub photometric_type: IesPhotometricType,
}

/// What a profile holds.
pub struct IesProfileView {
    pub source: Seq<char>,
    pub lamp_count: u32,
    pub lumens_per_lamp: Single,
    pub candela_multiplier: Single,
    pub vertical_angles: Seq<Single>,
    pub horizontal_angles: Seq<Single>,
    pub candela: Seq<Single>,
    pub photometric_type: IesPhotometricType,
}

impl View for IesProfile {
    type V = IesProfileView;

    open spec fn view(&self) -> IesProfileView {
        IesProfileView {
            source: self.source@,
            lamp_count: self.lamp_count,
            lumens_per_lamp: self.lumens_per_lamp,
            candela_multiplier: self.candela_multiplier,
            vertical_angles: self.vertical_angles@,
            horizontal_angles: self.horizontal_angles@,
            candela: self.candela@,
            photometric_type: self.photometric_type,
        }
    }
}

// ---- the header --------------------------------------------------------

/// Whether a line begins with `TILT=`.
pub open spec fn is_tilt_line(line: Seq<char>) -> bool {
    line.len() >= 5 && line[0] == 'T' && line[1] == 'I' && line[2] == 'L' && line[3] == 'T'
        && line[4] == '='
}

/// The header read line by line, trimmed, up to the `TILT=` line: the first line
/// that begins with a bracket, and the text behind the header. Nothing where no
/// `TILT=` line comes.
pub open spec fn header(s: Seq<char>, source: Seq<char>) -> Option<(Seq<char>, Seq<char>)>
    decreases s.len(),
{
    if s.len() == 0 {
        None
    } else {
        let end = text::line_end(s);
        let line = text::trimmed(s.take(end));
        let rest = if 0 <= end < s.len() {
            s.skip(end + 1)
        } else {
            Seq::empty()
        };
        let found = if source.len() == 0 && line.len() > 0 && line[0] == '[' {
            line
        } else {
            source
        };
        if is_tilt_line(line) {
            Some((found, rest))
        } else {
            header(rest, found)
        }
    }
}

/// The header's source line and the tokens behind the header.
#[derive(Debug)]
pub struct IesText {
    pub source: String,
    pub tokens: Vec<String>,
}

/// Parts a file into its source line and its tokens.
pub fn split_ies(file: &str) -> (r: Result<IesText, IesParseError>)
    ensures
        match r {
            Ok(t) => header(file@, Seq::empty()) is Some && t.source@ == (header(
                file@,
                Seq::empty(),
            )->0).0 && text::texts(t.tokens@) == text::words((header(file@, Seq::empty())->0).1)
                && t.tokens@.len() <= file@.len(),
            Err(e) => header(file@, Seq::empty()) is None && e@ == IesFault::MissingTilt,
        },
{
    let chars: Vec<char> = text::chars_of(file);
    let mut source: String = String::new();
    let mut at: usize = 0;
    proof {
        assert(chars@.skip(0) =~= file@);
        assert(source@ =~= Seq::empty());
    }
    while at < chars.len()
        invariant
            at <= chars.len(),
            chars@ == file@,
            header(file@, Seq::empty()) == header(chars@.skip(at as int), source@),
        decreases chars.len() - at,
    {
        let ghost s = chars@.skip(at as int);
        let end: usize = text::find_line_end(&chars, at);
        let (from, to) = text::trim_bounds(&chars, at, end);
        let ghost line = chars@.subrange(from as int, to as int);
        let next: usize = if end < chars.len() {
            end + 1
        } else {
            end
        };
        proof {
            assert(s.take(end - at) =~= chars@.subrange(at as int, end as int));
            assert(line == text::trimmed(s.take(text::line_end(s))));
            if end < chars.len() {
                assert(s.skip(end - at + 1) =~= chars@.skip(next as int));
            } else {
                assert(chars@.skip(next as int) =~= Seq::empty());
            }
        }
        if source.as_str().is_empty() && from < to && chars[from] == '[' {
            source = text::string_from(&chars, from, to);
        }
        if to - from >= 5 && chars[from] == 'T' && chars[from + 1] == 'I' && chars[from + 2] == 'L'
            && chars[from + 3] == 'T' && chars[from + 4] == '=' {
            proof {
                assert(line[0] == chars@[from as int]);
                assert(line[1] == chars@[from + 1]);
                assert(line[2] == chars@[from + 2]);
                assert(line[3] == chars@[from + 3]);
                assert(line[4] == chars@[from + 4]);
                assert(is_tilt_line(line));
            }
            let tokens: Vec<String> = text::split_words(&chars, next);
            return Ok(IesText { source, tokens });
        }
        at = next;
    }
    proof {
        assert(chars@.skip(at as int) =~= Seq::empty());
    }
    Err(IesParseError::MissingTilt)
}

// ---- the numbers -------------------------------------------------------

/// What is wrong with the tokens `from..to` as numbers: the first that is absent
/// or is no number.
pub open spec fn first_fault(
    tokens: Seq<Seq<char>>,
    readings: Seq<Option<Single>>,
    from: int,
    to: int,
) -> Option<IesFault>
    decreases to - from,
{
    if from >= to {
        None
    } else if from >= tokens.len() {
        Some(IesFault::TruncatedCandelaTable { expected: from + 1, got: tokens.len() as int })
    } else if readings[from] is None {
        Some(IesFault::MalformedNumber(from, tokens[from]))
    } else {
        first_fault(tokens, readings, from + 1, to)
    }
}

/// What is wrong with a table of `count` tokens from a position on. Where the tokens end
/// inside the table, the fault says how many values it should have and how many there are.
pub open spec fn table_fault(
    tokens: Seq<Seq<char>>,
    readings: Seq<Option<Single>>,
    from: int,
    count: int,
) -> Option<IesFault> {
    match first_fault(tokens, readings, from, from + count) {
        Some(IesFault::TruncatedCandelaTable { .. }) => Some(
            IesFault::TruncatedCandelaTable {
                expected: if count <= usize::MAX {
                    count
                } else {
                    usize::MAX as int
                },
                got: tokens.len() - from,
            },
        ),
        other => other,
    }
}

/// `count` readings from a position on, as numbers.
pub open spec fn numbers(readings: Seq<Option<Single>>, from: int, count: int) -> Seq<Single> {
    Seq::new(count as nat, |i: int| readings[from + i]->0)
}

/// The photometric type that a token names.
pub open spec fn type_named(token: Seq<char>) -> Option<IesPhotometricType> {
    let t = text::trimmed(token);
    if t == "1"@ {
        Some(IesPhotometricType::C)
    } else if t == "2"@ {
        Some(IesPhotometricType::B)
    } else if t == "3"@ {
        Some(IesPhotometricType::A)
    } else {
        None
    }
}

/// How many tokens stand before the angles.
pub const IES_PREAMBLE: usize = 13;

/// The profile that tokens and their readings spell out, or what is wrong with
/// them: ten numbers with the type as the sixth, three more, the vertical
/// angles, the horizontal angles, the table.
pub open spec fn profile_of(
    source: Seq<char>,
    tokens: Seq<Seq<char>>,
    readings: Seq<Option<Single>>,
) -> Result<IesProfileView, IesFault> {
    let v = readings[3]->0.integer_part();
    let h = readings[4]->0.integer_part();
    if first_fault(tokens, readings, 0, 5) is Some {
        Err(first_fault(tokens, readings, 0, 5)->0)
    } else if tokens.len() <= 5 {
        Err(IesFault::TruncatedCandelaTable { expected: 6, got: tokens.len() as int })
    } else if type_named(tokens[5]) is None {
        Err(IesFault::UnknownPhotometricType(text::trimmed(tokens[5])))
    } else if first_fault(tokens, readings, 6, IES_PREAMBLE + v + h) is Some {
        Err(first_fault(tokens, readings, 6, IES_PREAMBLE + v + h)->0)
    } else if table_fault(tokens, readings, IES_PREAMBLE + v + h, v * h) is Some {
        Err(table_fault(tokens, readings, IES_PREAMBLE + v + h, v * h)->0)
    } else {
        Ok(
            IesProfileView {
                source,
                lamp_count: readings[0]->0.integer_part() as u32,
                lumens_per_lamp: readings[1]->0,
                candela_multiplier: readings[2]->0,
                vertical_angles: numbers(readings, IES_PREAMBLE as int, v),
                horizontal_angles: numbers(readings, IES_PREAMBLE + v, h),
                candela: numbers(readings, IES_PREAMBLE + v + h, v * h),
                photometric_type: type_named(tokens[5])->0,
            },
        )
    }
}

impl IesPhotometricType {
    /// The type that a token names.
    pub fn parse(token: &str) -> (r: Result<IesPhotometricType, IesParseError>)
        ensures
            match r {
                Ok(t) => type_named(token@) == Some(t),
                Err(e) => type_named(token@) is None && e@ == IesFault::UnknownPhotometricType(
                    text::trimmed(token@),
                ),
            },
    {
        let t: String = text::trim_text(token);
        if text::same_text(t.as_str(), "1") {
            Ok(IesPhotometricType::C)
        } else if text::same_text(t.as_str(), "2") {
            Ok(IesPhotometricType::B)
        } else if text::same_text(t.as_str(), "3") {
            Ok(IesPhotometricType::A)
        } else {
            Err(IesParseError::UnknownPhotometricType(t))
        }
    }

    /// The number that stands for the type in a file.
    pub fn code(self) -> (r: u32)
        ensures
            r == match self {
                IesPhotometricType::C => 1u32,
                IesPhotometricType::B => 2u32,
                IesPhotometricType::A => 3u32,
            },
    {
        match self {
            IesPhotometricType::C => 1,
            IesPhotometricType::B => 2,
            IesPhotometricType::A => 3,
        }
    }
}

/// The number at a position.
fn take_number(
    tokens: &Vec<String>,
    readings: &Vec<Option<Single>>,
    at: usize,
) -> (r: Result<Single, IesParseError>)
    requires
        readings.len() == tokens.len(),
        tokens.len() < usize::MAX,
        at <= tokens.len(),
    ensures
        match r {
            Ok(v) => at < tokens.len() && readings[at as int] == Some(v),
            Err(e) => if at >= tokens.len() {
                e@ == (IesFault::TruncatedCandelaTable {
                    expected: at + 1,
                    got: tokens.len() as int,
                })
            } else {
                readings[at as int] is None && e@ == IesFault::MalformedNumber(
                    at as int,
                    tokens[at as int]@,
                )
            },
        },
{
    if at >= tokens.len() {
        return Err(IesParseError::TruncatedCandelaTable { expected: at + 1, got: tokens.len() });
    }
    match readings[at] {
        Some(v) => Ok(v),
        None => Err(IesParseError::MalformedNumber(at, tokens[at].clone())),
    }
}

/// The numbers at `count` positions, or the first thing wrong with them.
fn take_numbers(
    tokens: &Vec<String>,
    readings: &Vec<Option<Single>>,
    from: usize,
    count: usize,
) -> (r: Result<Vec<Single>, IesParseError>)
    requires
        readings.len() == tokens.len(),
        tokens.len() < usize::MAX,
        from <= tokens.len(),
    ensures
        match r {
            Ok(v) => from + count <= tokens.len() && v@ == numbers(
                readings@,
                from as int,
                count as int,
            ) && first_fault(text::texts(tokens@), readings@, from as int, from + count) is None,
            Err(e) => first_fault(text::texts(tokens@), readings@, from as int, from + count)
                == Some(e@),
        },
{
    let mut out: Vec<Single> = Vec::new();
    let mut i: usize = 0;
    let ghost all = text::texts(tokens@);
    while i < count
        invariant
            i <= count,
            readings.len() == tokens.len(),
            tokens.len() < usize::MAX,
            from + i <= tokens.len(),
            all == text::texts(tokens@),
            out@ == numbers(readings@, from as int, i as int),
            first_fault(all, readings@, from as int, from + count) == first_fault(
                all,
                readings@,
                from + i,
                from + count,
            ),
        decreases count - i,
    {
        proof {
            if from + i < tokens.len() {
                assert(all[from + i] == tokens@[from + i]@);
            }
        }
        match take_number(tokens, readings, from + i) {
            Ok(v) => {
                out.push(v);
            },
            Err(e) => {
                return Err(e);
            },
        }
        i = i + 1;
        proof {
            assert(out@ =~= numbers(readings@, from as int, i as int));
        }
    }
    Ok(out)
}

/// A fault in the first part of a stretch is the fault of the stretch; without
/// one the rest decides.
proof fn fault_splits(
    tokens: Seq<Seq<char>>,
    readings: Seq<Option<Single>>,
    from: int,
    mid: int,
    to: int,
)
    requires
        from <= mid <= to,
    ensures
        first_fault(tokens, readings, from, to) == match first_fault(tokens, readings, from, mid) {
            Some(f) => Some(f),
            None => first_fault(tokens, readings, mid, to),
        },
    decreases mid - from,
{
    if from < mid {
        fault_splits(tokens, readings, from + 1, mid, to);
    }
}

/// A stretch that reaches past the last token has a fault.
proof fn fault_past_the_end(
    tokens: Seq<Seq<char>>,
    readings: Seq<Option<Single>>,
    from: int,
    to: int,
    wider: int,
)
    requires
        from <= tokens.len(),
        tokens.len() < to <= wider,
    ensures
        first_fault(tokens, readings, from, to) is Some,
        first_fault(tokens, readings, from, wider) == first_fault(tokens, readings, from, to),
    decreases to - from,
{
    if from < tokens.len() && readings[from] is Some {
        fault_past_the_end(tokens, readings, from + 1, to, wider);
    }
}

impl IesProfile {
    /// The profile that tokens and their readings as numbers spell out. A reading
    /// is `None` where the token is no number.
    pub fn from_readings(
        source: String,
        tokens: &Vec<String>,
        readings: &Vec<Option<Single>>,
    ) -> (r: Result<IesProfile, IesParseError>)
        requires
            readings.len() == tokens.len(),
            tokens.len() < usize::MAX,
        ensures
            match r {
                Ok(p) => profile_of(source@, text::texts(tokens@), readings@) == Ok::<
                    IesProfileView,
                    IesFault,
                >(p@),
                Err(e) => profile_of(source@, text::texts(tokens@), readings@) == Err::<
                    IesProfileView,
                    IesFault,
                >(e@),
            },
    {
        let ghost all = text::texts(tokens@);
        let lead: Vec<Single> = match take_numbers(tokens, readings, 0, 5) {
            Ok(v) => v,
            Err(e) => {
                return Err(e);
            },
        };
        proof {
            assert(lead@[0] == readings@[0]->0);
            assert(lead@[1] == readings@[1]->0);
            assert(lead@[2] == readings@[2]->0);
            assert(lead@[3] == readings@[3]->0);
            assert(lead@[4] == readings@[4]->0);
        }
        let num_v: u32 = lead[3].to_u32();
        let num_h: u32 = lead[4].to_u32();
        if tokens.len() <= 5 {
            return Err(
                IesParseError::TruncatedCandelaTable { expected: 6, got: tokens.len() },
            );
        }
        assert(all[5] == tokens@[5]@);
        let photometric_type: IesPhotometricType = match IesPhotometricType::parse(
            tokens[5].as_str(),
        ) {
            Ok(t) => t,
            Err(e) => {
                return Err(e);
            },
        };
        let ghost v = num_v as int;
        let ghost h = num_h as int;
        let ghost end = IES_PREAMBLE + v + h + v * h;
        proof {
            assert(0 <= v * h) by (nonlinear_arith)
                requires
                    0 <= v,
                    0 <= h,
            ;
            let angles = IES_PREAMBLE + v + h;
            fault_splits(all, readings@, 6, IES_PREAMBLE as int, angles);
            fault_splits(all, readings@, IES_PREAMBLE as int, IES_PREAMBLE + v, angles);
        }
        // Units and dimensions, then ballast factors and watts.
        match take_numbers(tokens, readings, 6, 7) {
            Ok(_) => {},
            Err(e) => {
                return Err(e);
            },
        }
        let vertical_angles: Vec<Single> = match take_numbers(
            tokens,
            readings,
            IES_PREAMBLE,
            num_v as usize,
        ) {
            Ok(values) => values,
            Err(e) => {
                return Err(e);
            },
        };
        let horizontal_angles: Vec<Single> = match take_numbers(
            tokens,
            readings,
            IES_PREAMBLE + num_v as usize,
            num_h as usize,
        ) {
            Ok(values) => values,
            Err(e) => {
                return Err(e);
            },
        };
        let table: usize = match (num_v as usize).checked_mul(num_h as usize) {
            Some(n) => n,
            None => usize::MAX,
        };
        let start: usize = IES_PREAMBLE + num_v as usize + num_h as usize;
        proof {
            if v * h > usize::MAX {
                fault_past_the_end(all, readings@, start as int, start + usize::MAX, end);
            }
        }
        let candela: Vec<Single> = match take_numbers(tokens, readings, start, table) {
            Ok(values) => values,
            Err(IesParseError::TruncatedCandelaTable { .. }) => {
                return Err(
                    IesParseError::TruncatedCandelaTable {
                        expected: table,
                        got: tokens.len() - start,
                    },
                );
            },
            Err(e) => {
                return Err(e);
            },
        };
        Ok(
            IesProfile {
                source,
                lamp_count: lead[0].to_u32(),
                lumens_per_lamp: lead[1],
                candela_multiplier: lead[2],
                vertical_angles,
                horizontal_angles,
                candela,
                photometric_type,
            },
        )
    }

    /// Parses an LM-63 file, with `read_number` to read a token as a number.
    pub fn parse_ies<F: Fn(&str) -> Option<Single>>(
        file: &str,
        read_number: F,
    ) -> (r: Result<IesProfile, IesParseError>)
        requires
            file@.len() < usize::MAX,
            forall|t: &str| #[trigger] read_number.requires((t,)),
        ensures
            header(file@, Seq::empty()) is None ==> r is Err && r->Err_0@ == IesFault::MissingTilt,
            header(file@, Seq::empty()) matches Some((source, rest)) ==> exists|
                readings: Seq<Option<Single>>,
            | #[trigger]
                readings_of(read_number, text::words(rest), readings) && match r {
                    Ok(p) => profile_of(source, text::words(rest), readings) == Ok::<
                        IesProfileView,
                        IesFault,
                    >(p@),
                    Err(e) => profile_of(source, text::words(rest), readings) == Err::<
                        IesProfileView,
                        IesFault,
                    >(e@),
                },
    {
        let parts: IesText = match split_ies(file) {
            Ok(parts) => parts,
            Err(e) => {
                return Err(e);
            },
        };
        let mut readings: Vec<Option<Single>> = Vec::new();
        let mut i: usize = 0;
        let ghost all = text::texts(parts.tokens@);
        while i < parts.tokens.len()
            invariant
                i <= parts.tokens.len(),
                all == text::texts(parts.tokens@),
                forall|t: &str| #[trigger] read_number.requires((t,)),
                readings_of(read_number, all.take(i as int), readings@),
            decreases parts.tokens.len() - i,
        {
            let token: &str = parts.tokens[i].as_str();
            let reading: Option<Single> = read_number(token);
            let ghost before = readings@;
            readings.push(reading);
            i = i + 1;
            proof {
                let now = all.take(i as int);
                assert(now[i - 1] == token@);
                assert forall|k: int| 0 <= k < now.len() implies #[trigger] reads(
                    read_number,
                    now[k],
                    readings@[k],
                ) by {
                    if k < i - 1 {
                        assert(reads(read_number, all.take(i - 1)[k], before[k]));
                    } else {
                        assert(read_number.ensures((token,), reading));
                    }
                }
            }
        }
        proof {
            assert(all.take(i as int) =~= all);
            assert(readings_of(read_number, all, readings@));
        }
        IesProfile::from_readings(parts.source, &parts.tokens, &readings)
    }

    /// The largest value of the table before scaling; 0 where none is above it.
    pub fn peak_raw(&self) -> (r: Single)
        ensures
            r == peak(self.candela@),
    {
        let mut best: Single = Single::zero();
        let mut i: usize = 0;
        proof {
            assert(self.candela@.take(0) =~= Seq::empty());
        }
        while i < self.candela.len()
            invariant
                i <= self.candela.len(),
                best == peak(self.candela@.take(i as int)),
            decreases self.candela.len() - i,
        {
            best = best.max(self.candela[i]);
            i = i + 1;
            proof {
                assert(self.candela@.take(i as int).drop_last() =~= self.candela@.take(i - 1));
            }
        }
        proof {
            assert(self.candela@.take(i as int) =~= self.candela@);
        }
        best
    }
}

/// The largest of the values, and of 0.
pub open spec fn peak(values: Seq<Single>) -> Single
    decreases values.len(),
{
    if values.len() == 0 {
        Single { bits: 0 }
    } else {
        peak(values.drop_last()).greatest(values.last())
    }
}

/// Whether `reading` is what `read_number` gave for a token.
pub open spec fn reads<F: Fn(&str) -> Option<Single>>(
    read_number: F,
    token: Seq<char>,
    reading: Option<Single>,
) -> bool {
    exists|t: &str| t@ == token && #[trigger] read_number.ensures((t,), reading)
}

/// Whether `readings` are what `read_number` gave for the tokens.
pub open spec fn readings_of<F: Fn(&str) -> Option<Single>>(
    read_number: F,
    tokens: Seq<Seq<char>>,
    readings: Seq<Option<Single>>,
) -> bool {
    &&& readings.len() == tokens.len()
    &&& forall|k: int|
        0 <= k < tokens.len() ==> #[trigger] reads(read_number, tokens[k], readings[k])
}

/// A parsed table has one value for each pair of angles.
pub proof fn parsed_table_fills_its_grid(
    source: Seq<char>,
    tokens: Seq<Seq<char>>,
    readings: Seq<Option<Single>>,
)
    requires
        profile_of(source, tokens, readings) is Ok,
    ensures
        ({
            let p = profile_of(source, tokens, readings)->Ok_0;
            p.candela.len() == p.horizontal_angles.len() * p.vertical_angles.len()
        }),
{
    let v = readings[3]->0.integer_part();
    let h = readings[4]->0.integer_part();
    readings[3]->0.integer_part_is_natural();
    readings[4]->0.integer_part_is_natural();
    assert(v * h == h * v && 0 <= v * h) by (nonlinear_arith)
        requires
            0 <= v,
            0 <= h,
    ;
}

/// A file that lacks a token it announces is refused.
pub proof fn short_table_is_refused(
    source: Seq<char>,
    tokens: Seq<Seq<char>>,
    readings: Seq<Option<Single>>,
)
    requires
        readings.len() == tokens.len(),
        readings.len() > 4,
        readings[3] is Some,
        readings[4] is Some,
        ({
            let v = readings[3]->0.integer_part();
            let h = readings[4]->0.integer_part();
            tokens.len() < IES_PREAMBLE + v + h + v * h
        }),
    ensures
        profile_of(source, tokens, readings) is Err,
{
    let v = readings[3]->0.integer_part();
    let h = readings[4]->0.integer_part();
    let end = IES_PREAMBLE + v + h + v * h;
    if tokens.len() > 5 {
        fault_past_the_end(tokens, readings, 6, end, end);
        readings[3]->0.integer_part_is_natural();
        readings[4]->0.integer_part_is_natural();
        assert(0 <= v * h) by (nonlinear_arith)
            requires
                0 <= v,
                0 <= h,
        ;
        fault_splits(tokens, readings, 6, IES_PREAMBLE + v + h, end);
    }
}

/// The peak of a table is at least each of its values, and one of them unless none is
/// above 0.
pub proof fn the_peak_is_the_greatest_value(values: Seq<Single>)
    ensures
        !peak(values).nan(),
        (Single { bits: 0 }).at_most(peak(values)),
        forall|i: int|
            0 <= i < values.len() && !values[i].nan() ==> (#[trigger] values[i]).at_most(
                peak(values),
            ),
        (exists|i: int| 0 <= i < values.len() && (Single { bits: 0 }).below(#[trigger] values[i]))
            ==> values.contains(peak(values)),
    decreases values.len(),
{
    if values.len() > 0 {
        let rest = values.drop_last();
        the_peak_is_the_greatest_value(rest);
        assert forall|i: int| 0 <= i < values.len() && !values[i].nan() implies (
        #[trigger] values[i]).at_most(peak(values)) by {
            if i < rest.len() {
                assert(rest[i] == values[i]);
            }
        }
        if exists|i: int| 0 <= i < values.len() && (Single { bits: 0 }).below(#[trigger] values[i]) {
            let i = choose|i: int|
                0 <= i < values.len() && (Single { bits: 0 }).below(#[trigger] values[i]);
            if peak(rest).below(values.last()) {
                assert(values[values.len() - 1] == peak(values));
            } else {
                if i < rest.len() {
                    assert(rest[i] == values[i]);
                } else {
                    assert(values.last() == values[i]);
                    assert((Single { bits: 0 }).below(peak(rest)));
                    peaks_above_nothing_are_values(rest);
                }
                let k = choose|k: int| 0 <= k < rest.len() && rest[k] == peak(rest);
                assert(values[k] == peak(values));
            }
        }
    }
}

proof fn peaks_above_nothing_are_values(values: Seq<Single>)
    requires
        (Single { bits: 0 }).below(peak(values)),
    ensures
        values.contains(peak(values)),
    decreases values.len(),
{
    if values.len() > 0 {
        let rest = values.drop_last();
        the_peak_is_the_greatest_value(rest);
        if peak(rest).below(values.last()) {
            assert(values[values.len() - 1] == peak(values));
        } else {
            peaks_above_nothing_are_values(rest);
            let k = choose|k: int| 0 <= k < rest.len() && rest[k] == peak(rest);
            assert(values[k] == peak(values));
        }
    }
}

/// A profile is read exactly where all the numbers that it announces are there, and the
/// sixth token names a type: three of the lamp, how many vertical and how many horizontal
/// angles, the rest of the preamble, the angles, and a value for each pair of them.
pub proof fn complete_profiles_are_read(
    source: Seq<char>,
    tokens: Seq<Seq<char>>,
    readings: Seq<Option<Single>>,
)
    requires
        readings.len() == tokens.len(),
    ensures
        ({
            let v = readings[3]->0.integer_part();
            let h = readings[4]->0.integer_part();
            let end = 13 + v + h + v * h;
            profile_of(source, tokens, readings) is Ok <==> {
                &&& tokens.len() > 5
                &&& tokens.len() >= end
                &&& type_named(tokens[5]) is Some
                &&& forall|k: int|
                    0 <= k < end && k != 5 ==> (#[trigger] readings[k]) is Some
            }
        }),
{
    let v = readings[3]->0.integer_part();
    let h = readings[4]->0.integer_part();
    readings[3]->0.integer_part_is_natural();
    readings[4]->0.integer_part_is_natural();
    assert(0 <= v * h) by (nonlinear_arith)
        requires
            0 <= v,
            0 <= h,
    ;
    let end = 13 + v + h + v * h;
    nothing_wrong_where_all_is_there(tokens, readings, 0, 5);
    nothing_wrong_where_all_is_there(tokens, readings, 6, 13 + v + h);
    nothing_wrong_where_all_is_there(tokens, readings, 13 + v + h, end);
    if profile_of(source, tokens, readings) is Ok {
        assert forall|k: int| 0 <= k < end && k != 5 implies (#[trigger] readings[k]) is Some by {}
        if tokens.len() < end {
            short_table_is_refused(source, tokens, readings);
        }
    }
}

proof fn nothing_wrong_where_all_is_there(
    tokens: Seq<Seq<char>>,
    readings: Seq<Option<Single>>,
    from: int,
    to: int,
)
    requires
        0 <= from,
    ensures
        first_fault(tokens, readings, from, to) is None <==> forall|k: int|
            from <= k < to ==> k < tokens.len() && (#[trigger] readings[k]) is Some,
    decreases to - from,
{
    if from < to {
        nothing_wrong_where_all_is_there(tokens, readings, from + 1, to);
        assert(readings[from] == readings[from]);
        if first_fault(tokens, readings, from, to) is None {
            assert forall|k: int| from <= k < to implies k < tokens.len() && (
            #[trigger] readings[k]) is Some by {}
        } else if forall|k: int|
            from <= k < to ==> k < tokens.len() && (#[trigger] readings[k]) is Some {
            assert(from < tokens.len() && readings[from] is Some);
        }
    }
}

/// What is read of a profile stands where the file has it: the lamps, their flux and the
/// factor first, each angle at its own place behind the preamble, vertical before
/// horizontal, and behind them the table, one row of vertical values for each horizontal
/// angle.
pub proof fn profiles_hold_what_the_file_says(
    source: Seq<char>,
    tokens: Seq<Seq<char>>,
    readings: Seq<Option<Single>>,
    i: int,
    j: int,
)
    requires
        profile_of(source, tokens, readings) is Ok,
    ensures
        ({
            let p = profile_of(source, tokens, readings)->Ok_0;
            let columns = p.vertical_angles.len();
            let rows = p.horizontal_angles.len();
            &&& p.source == source
            &&& p.lamp_count == readings[0]->0.integer_part() as u32
            &&& p.lumens_per_lamp == readings[1]->0
            &&& p.candela_multiplier == readings[2]->0
            &&& columns == readings[3]->0.integer_part()
            &&& rows == readings[4]->0.integer_part()
            &&& type_named(tokens[5]) == Some(p.photometric_type)
            &&& 0 <= j < columns ==> p.vertical_angles[j] == readings[13 + j]->0
            &&& 0 <= i < rows ==> p.horizontal_angles[i] == readings[13 + columns + i]->0
            &&& 0 <= i < rows && 0 <= j < columns ==> 0 <= i * columns + j < p.candela.len()
                && p.candela[i * columns + j] == readings[13 + columns + rows + (i * columns
                + j)]->0
        }),
{
    let v = readings[3]->0.integer_part();
    let h = readings[4]->0.integer_part();
    readings[3]->0.integer_part_is_natural();
    readings[4]->0.integer_part_is_natural();
    if 0 <= i < h && 0 <= j < v {
        assert(0 <= i * v + j < v * h) by (nonlinear_arith)
            requires
                0 <= i < h,
                0 <= j < v,
        ;
    }
}

/// The types of a file are told by the numbers 1, 2 and 3, with blanks around them or not.
pub proof fn types_are_told_by_their_number(token: Seq<char>)
    ensures
        text::trimmed(token) == "1"@ <==> type_named(token) == Some(IesPhotometricType::C),
        text::trimmed(token) == "2"@ <==> type_named(token) == Some(IesPhotometricType::B),
        text::trimmed(token) == "3"@ <==> type_named(token) == Some(IesPhotometricType::A),
{
    reveal_strlit("1");
    reveal_strlit("2");
    reveal_strlit("3");
    assert("1"@[0] != "2"@[0] && "1"@[0] != "3"@[0] && "2"@[0] != "3"@[0]);
}

proof fn fault_at(
    tokens: Seq<Seq<char>>,
    readings: Seq<Option<Single>>,
    from: int,
    to: int,
    k: int,
)
    requires
        0 <= from <= k <= to,
        k <= tokens.len(),
        readings.len() == tokens.len(),
        forall|i: int| from <= i < k ==> (#[trigger] readings[i]) is Some,
        k == to || k == tokens.len() || readings[k] is None,
    ensures
        first_fault(tokens, readings, from, to) == if k == to {
            None::<IesFault>
        } else if k == tokens.len() {
            Some(IesFault::TruncatedCandelaTable { expected: k + 1, got: k })
        } else {
            Some(IesFault::MalformedNumber(k, tokens[k]))
        },
    decreases k - from,
{
    if from < k {
        assert(readings[from] is Some);
        fault_at(tokens, readings, from + 1, to, k);
    }
}

/// A file that ends inside its table is refused, and the fault says how many values the
/// table should have and how many there are.
pub proof fn cut_off_tables_say_what_is_missing(
    source: Seq<char>,
    tokens: Seq<Seq<char>>,
    readings: Seq<Option<Single>>,
)
    requires
        readings.len() == tokens.len(),
        tokens.len() > 5,
        type_named(tokens[5]) is Some,
        forall|i: int| 0 <= i < tokens.len() && i != 5 ==> (#[trigger] readings[i]) is Some,
        ({
            let v = readings[3]->0.integer_part();
            let h = readings[4]->0.integer_part();
            v * h <= usize::MAX && IES_PREAMBLE + v + h <= tokens.len() < IES_PREAMBLE + v + h + v
                * h
        }),
    ensures
        ({
            let v = readings[3]->0.integer_part();
            let h = readings[4]->0.integer_part();
            profile_of(source, tokens, readings) == Err::<IesProfileView, IesFault>(
                IesFault::TruncatedCandelaTable {
                    expected: v * h,
                    got: tokens.len() - (IES_PREAMBLE + v + h),
                },
            )
        }),
{
    let v = readings[3]->0.integer_part();
    let h = readings[4]->0.integer_part();
    readings[3]->0.integer_part_is_natural();
    readings[4]->0.integer_part_is_natural();
    let start = IES_PREAMBLE + v + h;
    fault_at(tokens, readings, 0, 5, 5);
    fault_at(tokens, readings, 6, start, start);
    fault_at(tokens, readings, start, start + v * h, tokens.len() as int);
}

/// A file is refused for the first of its tokens that is not the number it should be, by
/// the place of that token and by what it says.
pub proof fn malformed_numbers_are_named(
    source: Seq<char>,
    tokens: Seq<Seq<char>>,
    readings: Seq<Option<Single>>,
    k: int,
)
    requires
        readings.len() == tokens.len(),
        tokens.len() > 5,
        type_named(tokens[5]) is Some,
        0 <= k < tokens.len(),
        k != 5,
        forall|i: int| 0 <= i < k && i != 5 ==> (#[trigger] readings[i]) is Some,
        readings[k] is None,
        k > 4 ==> ({
            let v = readings[3]->0.integer_part();
            let h = readings[4]->0.integer_part();
            k < IES_PREAMBLE + v + h + v * h
        }),
    ensures
        profile_of(source, tokens, readings) == Err::<IesProfileView, IesFault>(
            IesFault::MalformedNumber(k, tokens[k]),
        ),
{
    if k < 5 {
        fault_at(tokens, readings, 0, 5, k);
    } else {
        let v = readings[3]->0.integer_part();
        let h = readings[4]->0.integer_part();
        readings[3]->0.integer_part_is_natural();
        readings[4]->0.integer_part_is_natural();
        let start = IES_PREAMBLE + v + h;
        fault_at(tokens, readings, 0, 5, 5);
        if k < start {
            fault_at(tokens, readings, 6, start, k);
        } else {
            fault_at(tokens, readings, 6, start, start);
            fault_at(tokens, readings, start, start + v * h, k);
        }
    }
}

} // verus!
