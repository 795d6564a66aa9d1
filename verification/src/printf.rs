//! The small part of the C format grammar that the diagnostics of the
//! protocol engine use: how a format and its arguments are read, and how each
//! piece is rendered.

use vstd::prelude::*;
use vstd::string::StringExecFns;
use crate::constants::{c_int, c_uint, to_unsigned, unsigned};

verus! {

/// The three floating forms, as the conversion letter selects them.
#[derive(Debug, Clone, Copy, PartialEq, Eq, Structural)]
pub enum DoubleFormat {
    /// `%f`, `%F`
    Normal,
    /// `%e`, `%E`
    Standard,
    /// `%g`, `%G`
    Auto,
}

/// One argument behind the format, as its caller passed it: a machine word,
/// or the bytes of a string up to its terminator.
#[derive(Debug, Clone, Copy, PartialEq, Eq)]
pub enum VaArg<'a> {
    Word(u32),
    Str(&'a [u8]),
}

pub enum VaArgView {
    Word(u32),
    Str(Seq<u8>),
}

impl<'a> View for VaArg<'a> {
    type V = VaArgView;

    open spec fn view(&self) -> VaArgView {
        match *self {
            VaArg::Word(w) => VaArgView::Word(w),
            VaArg::Str(s) => VaArgView::Str(s@),
        }
    }
}

/// One piece of a format that has been read: a run of literal bytes, or a
/// conversion with the argument that it pulled.
#[derive(Debug, Clone, Copy, PartialEq, Eq)]
pub enum Argument<'a> {
    Extra(&'a [u8]),
    Percent,
    Int(c_int),
    Uint(c_uint),
    Double { value: c_uint, upper: bool, format: DoubleFormat },
    String(&'a [u8]),
    Char(u8),
    /// The width of the zero padding (0 where the format gives none) and the
    /// value.
    Hex(u8, c_int),
    Pointer(usize),
}

pub enum ArgumentView {
    Extra(Seq<u8>),
    Percent,
    Int(c_int),
    Uint(c_uint),
    Double { value: c_uint, upper: bool, format: DoubleFormat },
    String(Seq<u8>),
    Char(u8),
    Hex(u8, c_int),
    Pointer(usize),
}

impl<'a> View for Argument<'a> {
    type V = ArgumentView;

    open spec fn view(&self) -> ArgumentView {
        match *self {
            Argument::Extra(d) => ArgumentView::Extra(d@),
            Argument::Percent => ArgumentView::Percent,
            Argument::Int(v) => ArgumentView::Int(v),
            Argument::Uint(v) => ArgumentView::Uint(v),
            Argument::Double { value, upper, format } => ArgumentView::Double {
                value,
                upper,
                format,
            },
            Argument::String(s) => ArgumentView::String(s@),
            Argument::Char(c) => ArgumentView::Char(c),
            Argument::Hex(width, v) => ArgumentView::Hex(width, v),
            Argument::Pointer(p) => ArgumentView::Pointer(p),
        }
    }
}

/// The views of a list of pieces.
pub open spec fn views<'a>(items: Seq<Argument<'a>>) -> Seq<ArgumentView> {
    Seq::new(items.len(), |i: int| items[i]@)
}

pub open spec fn arg_views<'a>(args: Seq<VaArg<'a>>) -> Seq<VaArgView> {
    Seq::new(args.len(), |i: int| args[i]@)
}

pub const PERCENT: u8 = 0x25;

pub open spec fn is_digit(b: u8) -> bool {
    0x30 <= b <= 0x39
}

/// The number that two characters spell: two digits, or a plus sign and one
/// digit.
pub open spec fn width_of(a: u8, b: u8) -> Option<u8> {
    if is_digit(a) && is_digit(b) {
        Some(((a - 0x30) * 10 + (b - 0x30)) as u8)
    } else if a == 0x2b && is_digit(b) {
        Some((b - 0x30) as u8)
    } else {
        None
    }
}

/// The width prefix of the conversion whose text starts at `at`, if the two
/// characters there spell a number.
pub open spec fn width_prefix(f: Seq<u8>, at: int) -> Option<u8> {
    if at + 2 <= f.len() {
        width_of(f[at], f[at + 1])
    } else {
        None
    }
}

/// Where the literal run that starts at `from` ends: at the next percent sign
/// or at the end of the format.
pub open spec fn literal_end(f: Seq<u8>, from: int) -> int
    decreases f.len() - from,
{
    if from >= f.len() {
        f.len() as int
    } else if f[from] == PERCENT {
        from
    } else {
        literal_end(f, from + 1)
    }
}

/// The conversions that pull a machine word, each with what it makes of the
/// word; `None` for any other character.
pub open spec fn word_conversion(ch: u8, width: Option<u8>, w: u32) -> Option<ArgumentView> {
    if ch == 0x64 || ch == 0x69 {
        Some(ArgumentView::Int(w as i32))
    } else if ch == 0x78 {
        Some(
            ArgumentView::Hex(
                match width {
                    Some(n) => n,
                    None => 0,
                },
                w as i32,
            ),
        )
    } else if ch == 0x75 {
        Some(ArgumentView::Uint(w))
    } else if ch == 0x66 || ch == 0x46 {
        Some(ArgumentView::Double { value: w, upper: ch == 0x46, format: DoubleFormat::Normal })
    } else if ch == 0x65 || ch == 0x45 {
        Some(ArgumentView::Double { value: w, upper: ch == 0x45, format: DoubleFormat::Standard })
    } else if ch == 0x67 || ch == 0x47 {
        Some(ArgumentView::Double { value: w, upper: ch == 0x47, format: DoubleFormat::Auto })
    } else if ch == 0x63 {
        Some(ArgumentView::Char(w as u8))
    } else if ch == 0x70 {
        Some(ArgumentView::Pointer(w as usize))
    } else {
        None
    }
}

/// What the conversion character `ch` yields when `used` arguments have been
/// pulled before it, and how many have been pulled after it. `None` where
/// `ch` is no conversion of the grammar, or where the next argument is
/// missing or not of the kind that `ch` pulls.
pub open spec fn conversion(ch: u8, width: Option<u8>, args: Seq<VaArgView>, used: int) -> Option<
    (ArgumentView, int),
> {
    if ch == PERCENT {
        Some((ArgumentView::Percent, used))
    } else if ch == 0x73 {
        if 0 <= used < args.len() && args[used] is Str {
            Some((ArgumentView::String(args[used]->Str_0), used + 1))
        } else {
            None
        }
    } else if 0 <= used < args.len() && args[used] is Word {
        match word_conversion(ch, width, args[used]->Word_0) {
            Some(a) => Some((a, used + 1)),
            None => None,
        }
    } else {
        None
    }
}

/// A format that has been read: its pieces in order, and 0 if all of it was
/// read or -1 if a conversion stopped the reading.
pub struct Parsed {
    pub items: Seq<ArgumentView>,
    pub status: c_int,
}

/// Reads the conversions from `pos` on, where `pos` is at a percent sign or
/// at the end. Behind the percent sign come an optional width prefix, the
/// conversion character, and a literal run up to the next percent sign, which
/// is a piece of its own even where it is empty.
pub open spec fn conversions(f: Seq<u8>, args: Seq<VaArgView>, pos: int, used: int) -> Parsed
    decreases f.len() - pos,
{
    if pos >= f.len() || pos < 0 {
        Parsed { items: Seq::empty(), status: 0 }
    } else {
        let width = width_prefix(f, pos + 1);
        let at = if width is Some {
            pos + 3
        } else {
            pos + 1
        };
        let ch = if at < f.len() {
            f[at]
        } else {
            0u8
        };
        match conversion(ch, width, args, used) {
            None => Parsed { items: Seq::empty(), status: -1i32 },
            Some((arg, used_after)) => {
                if at < f.len() {
                    let end = literal_end(f, at + 1);
                    proof {
                        lemma_literal_end_bounds(f, at + 1);
                    }
                    let rest = conversions(f, args, end, used_after);
                    Parsed {
                        items: seq![arg, ArgumentView::Extra(f.subrange(at + 1, end))] + rest.items,
                        status: rest.status,
                    }
                } else {
                    Parsed { items: Seq::empty(), status: -1i32 }
                }
            },
        }
    }
}

/// Reads a whole format: the literal run at its start, then its conversions.
pub open spec fn parse(f: Seq<u8>, args: Seq<VaArgView>) -> Parsed {
    let end = literal_end(f, 0);
    let rest = conversions(f, args, end, 0);
    Parsed { items: seq![ArgumentView::Extra(f.subrange(0, end))] + rest.items, status: rest.status }
}

/// A literal run ends at or behind its start and within the format, and
/// where it ends before the end of the format it ends at a percent sign.
pub proof fn lemma_literal_end_bounds(f: Seq<u8>, from: int)
    requires
        0 <= from <= f.len(),
    ensures
        from <= literal_end(f, from) <= f.len(),
        literal_end(f, from) < f.len() ==> f[literal_end(f, from)] == PERCENT,
    decreases f.len() - from,
{
    if from < f.len() && f[from] != PERCENT {
        lemma_literal_end_bounds(f, from + 1);
    }
}

/// A literal run ends within the format wherever it starts.
pub proof fn lemma_literal_end_within(f: Seq<u8>, from: int)
    ensures
        literal_end(f, from) <= f.len(),
    decreases f.len() - from,
{
    if from < f.len() && f[from] != PERCENT {
        lemma_literal_end_within(f, from + 1);
    }
}

/// Finds the end of the literal run that starts at `from`.
fn scan_literal(f: &[u8], from: usize) -> (end: usize)
    requires
        from <= f@.len(),
    ensures
        end == literal_end(f@, from as int),
        from <= end <= f@.len(),
        end < f@.len() ==> f@[end as int] == PERCENT,
{
    let mut end = from;
    while end < f.len() && f[end] != PERCENT
        invariant
            from <= end <= f@.len(),
            literal_end(f@, from as int) == literal_end(f@, end as int),
        decreases f@.len() - end,
    {
        end = end + 1;
    }
    end
}

/// Reads two characters as a width.
fn parse_width(a: u8, b: u8) -> (width: Option<u8>)
    ensures
        width == width_of(a, b),
{
    if 0x30 <= b && b <= 0x39 {
        if 0x30 <= a && a <= 0x39 {
            Some((a - 0x30) * 10 + (b - 0x30))
        } else if a == 0x2b {
            Some(b - 0x30)
        } else {
            None
        }
    } else {
        None
    }
}

/// Makes of the word `w` what the conversion character `ch` asks for.
fn convert_word<'a>(ch: u8, width: Option<u8>, w: u32) -> (arg: Option<Argument<'a>>)
    ensures
        match arg {
            Some(a) => word_conversion(ch, width, w) == Some(a@),
            None => word_conversion(ch, width, w) is None,
        },
{
    if ch == 0x64 || ch == 0x69 {
        Some(Argument::Int(#[verifier::truncate] (w as i32)))
    } else if ch == 0x78 {
        let n = match width {
            Some(n) => n,
            None => 0,
        };
        Some(Argument::Hex(n, #[verifier::truncate] (w as i32)))
    } else if ch == 0x75 {
        Some(Argument::Uint(w))
    } else if ch == 0x66 || ch == 0x46 {
        Some(Argument::Double { value: w, upper: ch == 0x46, format: DoubleFormat::Normal })
    } else if ch == 0x65 || ch == 0x45 {
        Some(Argument::Double { value: w, upper: ch == 0x45, format: DoubleFormat::Standard })
    } else if ch == 0x67 || ch == 0x47 {
        Some(Argument::Double { value: w, upper: ch == 0x47, format: DoubleFormat::Auto })
    } else if ch == 0x63 {
        Some(Argument::Char(#[verifier::truncate] (w as u8)))
    } else if ch == 0x70 {
        Some(Argument::Pointer(w as usize))
    } else {
        None
    }
}

/// Reads `format` with the arguments `args` and hands back its pieces in
/// order, with 0 if all of the format was read. A conversion that the grammar
/// does not know, or that finds no argument of its kind, stops the reading:
/// the pieces before it are handed back with -1.
pub fn func<'a>(format: &'a [u8], args: &[VaArg<'a>]) -> (out: (Vec<Argument<'a>>, c_int))
    ensures
        views(out.0@) == parse(format@, arg_views(args@)).items,
        out.1 == parse(format@, arg_views(args@)).status,
{
    let ghost f = format@;
    let ghost a = arg_views(args@);
    let mut items: Vec<Argument<'a>> = Vec::new();
    let mut pos = scan_literal(format, 0);
    items.push(Argument::Extra(&format[0..pos]));
    let mut used: usize = 0;
    proof {
        assert(views(items@) =~= seq![ArgumentView::Extra(f.subrange(0, pos as int))]);
    }
    while pos < format.len()
        invariant
            f == format@,
            a == arg_views(args@),
            pos <= f.len(),
            used <= args@.len(),
            pos < f.len() ==> f[pos as int] == PERCENT,
            parse(f, a).items == views(items@) + conversions(f, a, pos as int, used as int).items,
            parse(f, a).status == conversions(f, a, pos as int, used as int).status,
        decreases f.len() - pos,
    {
        let mut at = pos + 1;
        let mut width: Option<u8> = None;
        if format.len() - at >= 2 {
            width = parse_width(format[at], format[at + 1]);
            if width.is_some() {
                at = at + 2;
            }
        }
        if at >= format.len() {
            return (items, -1);
        }
        let ch = format[at];
        let arg: Argument<'a> = if ch == PERCENT {
            Argument::Percent
        } else if used < args.len() {
            match args[used] {
                VaArg::Str(s) => {
                    if ch == 0x73 {
                        used = used + 1;
                        Argument::String(s)
                    } else {
                        return (items, -1);
                    }
                },
                VaArg::Word(w) => {
                    match convert_word(ch, width, w) {
                        Some(arg) => {
                            used = used + 1;
                            arg
                        },
                        None => {
                            return (items, -1);
                        },
                    }
                },
            }
        } else {
            return (items, -1);
        };
        let end = scan_literal(format, at + 1);
        let ghost before = views(items@);
        items.push(arg);
        items.push(Argument::Extra(&format[at + 1..end]));
        proof {
            lemma_literal_end_bounds(f, at as int + 1);
            assert(views(items@) =~= before + seq![
                arg@,
                ArgumentView::Extra(f.subrange(at as int + 1, end as int)),
            ]);
            assert(before + (seq![arg@, ArgumentView::Extra(f.subrange(at as int + 1, end as int))]
                + conversions(f, a, end as int, used as int).items) =~= views(items@) + conversions(
                f,
                a,
                end as int,
                used as int,
            ).items);
        }
        pos = end;
    }
    proof {
        assert(views(items@) + conversions(f, a, pos as int, used as int).items =~= views(items@));
    }
    (items, 0)
}

/// What a conversion pulls from the arguments.
#[derive(Debug, Clone, Copy, PartialEq, Eq, Structural)]
pub enum ArgKind {
    /// Nothing: the conversion stands for itself.
    Nothing,
    /// One machine word.
    Word,
    /// One string.
    Str,
}

/// The table of the grammar: for each conversion character what it pulls,
/// and `None` for a character that is no conversion.
pub open spec fn kind_of(ch: u8) -> Option<ArgKind> {
    if ch == PERCENT {
        Some(ArgKind::Nothing)
    } else if ch == 0x73 {
        Some(ArgKind::Str)
    } else if ch == 0x64 || ch == 0x69 || ch == 0x78 || ch == 0x75 || ch == 0x66 || ch == 0x46
        || ch == 0x65 || ch == 0x45 || ch == 0x67 || ch == 0x47 || ch == 0x63 || ch == 0x70 {
        Some(ArgKind::Word)
    } else {
        None
    }
}

/// Looks a conversion character up in the table.
pub fn conversion_kind(ch: u8) -> (kind: Option<ArgKind>)
    ensures
        kind == kind_of(ch),
{
    if ch == PERCENT {
        Some(ArgKind::Nothing)
    } else if ch == 0x73 {
        Some(ArgKind::Str)
    } else if ch == 0x64 || ch == 0x69 || ch == 0x78 || ch == 0x75 || ch == 0x66 || ch == 0x46
        || ch == 0x65 || ch == 0x45 || ch == 0x67 || ch == 0x47 || ch == 0x63 || ch == 0x70 {
        Some(ArgKind::Word)
    } else {
        None
    }
}

/// The kind of an argument.
pub open spec fn arg_kind(arg: VaArgView) -> ArgKind {
    match arg {
        VaArgView::Word(_) => ArgKind::Word,
        VaArgView::Str(_) => ArgKind::Str,
    }
}

/// The conversion character of the conversion at the percent sign at `pos`,
/// or 0 where the format ends before it.
pub open spec fn conversion_char(f: Seq<u8>, pos: int) -> u8 {
    let at = if width_prefix(f, pos + 1) is Some {
        pos + 3
    } else {
        pos + 1
    };
    if at < f.len() {
        f[at]
    } else {
        0u8
    }
}

/// Where the conversion at the percent sign at `pos` and the literal run
/// behind it end.
pub open spec fn conversion_end(f: Seq<u8>, pos: int) -> int {
    let at = if width_prefix(f, pos + 1) is Some {
        pos + 3
    } else {
        pos + 1
    };
    literal_end(f, at + 1)
}

/// What the conversions from `pos` on pull, in order, up to the end of the
/// format or to the first character that is no conversion.
pub open spec fn pulls(f: Seq<u8>, pos: int) -> Seq<ArgKind>
    decreases f.len() - pos,
{
    if pos >= f.len() || pos < 0 {
        Seq::empty()
    } else {
        match kind_of(conversion_char(f, pos)) {
            None => Seq::empty(),
            Some(kind) => {
                proof {
                    lemma_literal_end_within(f, pos + 2);
                    lemma_literal_end_within(f, pos + 4);
                }
                let rest = if conversion_end(f, pos) > pos {
                    pulls(f, conversion_end(f, pos))
                } else {
                    Seq::empty()
                };
                if kind == ArgKind::Nothing {
                    rest
                } else {
                    seq![kind] + rest
                }
            },
        }
    }
}

/// Whether every conversion from `pos` on is one of the grammar.
pub open spec fn readable(f: Seq<u8>, pos: int) -> bool
    decreases f.len() - pos,
{
    if pos >= f.len() || pos < 0 {
        true
    } else {
        proof {
            lemma_literal_end_within(f, pos + 2);
            lemma_literal_end_within(f, pos + 4);
        }
        kind_of(conversion_char(f, pos)) is Some && conversion_end(f, pos) > pos && readable(
            f,
            conversion_end(f, pos),
        )
    }
}

/// What a whole format pulls.
pub open spec fn format_pulls(f: Seq<u8>) -> Seq<ArgKind> {
    pulls(f, literal_end(f, 0))
}

/// Whether a whole format can be read.
pub open spec fn format_readable(f: Seq<u8>) -> bool {
    readable(f, literal_end(f, 0))
}

/// Whether the arguments from `used` on are, one for one, what `kinds` names.
pub open spec fn args_fit(args: Seq<VaArgView>, used: int, kinds: Seq<ArgKind>) -> bool {
    &&& 0 <= used
    &&& used + kinds.len() <= args.len()
    &&& forall|i: int| 0 <= i < kinds.len() ==> arg_kind(#[trigger] args[used + i]) == kinds[i]
}

proof fn lemma_conversions_status(f: Seq<u8>, args: Seq<VaArgView>, pos: int, used: int)
    requires
        0 <= pos <= f.len(),
        pos < f.len() ==> f[pos] == PERCENT,
        args_fit(args, used, pulls(f, pos)),
    ensures
        conversions(f, args, pos, used).status == (if readable(f, pos) {
            0i32
        } else {
            -1i32
        }),
    decreases f.len() - pos,
{
    if pos < f.len() {
        let width = width_prefix(f, pos + 1);
        let at = if width is Some {
            pos + 3
        } else {
            pos + 1
        };
        let ch = conversion_char(f, pos);
        match kind_of(ch) {
            None => {},
            Some(kind) => {
                assert(at < f.len());
                lemma_literal_end_bounds(f, at + 1);
                let end = literal_end(f, at + 1);
                assert(end == conversion_end(f, pos));
                let rest = pulls(f, end);
                if kind == ArgKind::Nothing {
                    assert(pulls(f, pos) == rest);
                    lemma_conversions_status(f, args, end, used);
                } else {
                    assert(pulls(f, pos) == seq![kind] + rest);
                    assert(pulls(f, pos)[0] == kind);
                    assert(arg_kind(args[used + 0]) == kind);
                    assert(args_fit(args, used + 1, rest)) by {
                        assert forall|i: int| 0 <= i < rest.len() implies arg_kind(
                            #[trigger] args[used + 1 + i],
                        ) == rest[i] by {
                            assert(pulls(f, pos)[i + 1] == rest[i]);
                            assert(arg_kind(args[used + (i + 1)]) == pulls(f, pos)[i + 1]);
                        }
                    }
                    lemma_conversions_status(f, args, end, used + 1);
                }
            },
        }
    }
}

/// When reading succeeds: a format read with arguments that are, one for
/// one, what its conversions pull is read to its end exactly if each of its
/// conversions is one of the grammar.
pub proof fn lemma_parse_status(f: Seq<u8>, args: Seq<VaArgView>)
    requires
        args_fit(args, 0, format_pulls(f)),
    ensures
        parse(f, args).status == (if format_readable(f) {
            0i32
        } else {
            -1i32
        }),
{
    lemma_literal_end_bounds(f, 0);
    lemma_conversions_status(f, args, literal_end(f, 0), 0);
}

/// Lists what the conversions of `format` pull, in order, up to the end of
/// the format or to the first character that is no conversion. Arguments of
/// these kinds are what `func` needs to read the format as far as it can be
/// read.
pub fn arg_kinds(format: &[u8]) -> (kinds: Vec<ArgKind>)
    ensures
        kinds@ == format_pulls(format@),
{
    let ghost f = format@;
    let mut kinds: Vec<ArgKind> = Vec::new();
    let mut pos = scan_literal(format, 0);
    proof {
        assert(kinds@ + pulls(f, pos as int) =~= format_pulls(f));
    }
    while pos < format.len()
        invariant
            f == format@,
            pos <= f.len(),
            pos < f.len() ==> f[pos as int] == PERCENT,
            kinds@ + pulls(f, pos as int) == format_pulls(f),
        decreases f.len() - pos,
    {
        let mut at = pos + 1;
        if format.len() - at >= 2 {
            if parse_width(format[at], format[at + 1]).is_some() {
                at = at + 2;
            }
        }
        if at >= format.len() {
            proof {
                assert(kinds@ + pulls(f, pos as int) =~= kinds@);
            }
            return kinds;
        }
        let kind = match conversion_kind(format[at]) {
            Some(kind) => kind,
            None => {
                proof {
                    assert(kinds@ + pulls(f, pos as int) =~= kinds@);
                }
                return kinds;
            },
        };
        let end = scan_literal(format, at + 1);
        let ghost before = kinds@;
        match kind {
            ArgKind::Nothing => {},
            _ => {
                kinds.push(kind);
            },
        }
        proof {
            lemma_literal_end_bounds(f, at as int + 1);
            assert(end == conversion_end(f, pos as int));
            assert(kinds@ + pulls(f, end as int) =~= before + pulls(f, pos as int));
        }
        pos = end;
    }
    proof {
        assert(kinds@ + pulls(f, pos as int) =~= kinds@);
    }
    kinds
}

/// The text that `String::from_utf8_lossy` makes of `bytes`.
pub uninterp spec fn utf8_lossy(bytes: Seq<u8>) -> Seq<char>;

/// `String::from_utf8_lossy`, as an owned string. The text is a function of
/// the bytes alone: what is valid UTF-8 is decoded, and each invalid sequence
/// gives U+FFFD. Only that it is such a function is claimed here.
#[verifier::external_body]
pub(crate) fn lossy(bytes: &[u8]) -> (text: String)
    ensures
        text@ == utf8_lossy(bytes@),
{
    String::from_utf8_lossy(bytes).into_owned()
}

/// `String::push`: appends one character to the end of the string.
#[verifier::external_body]
pub(crate) fn push_char(text: &mut String, c: char)
    ensures
        final(text)@ == old(text)@.push(c),
{
    text.push(c)
}

/// The digit for `d` in lower case, for `d` below 16.
pub open spec fn digit_char(d: int) -> char {
    if d < 10 {
        (0x30 + d) as char
    } else {
        (0x61 + d - 10) as char
    }
}

/// The digits of `v` in the given base, the most significant first, without
/// leading zeros; one digit for 0.
pub open spec fn digits(v: nat, base: nat) -> Seq<char>
    recommends
        2 <= base <= 16,
    decreases v,
{
    if base < 2 || v < base {
        seq![digit_char(v as int)]
    } else {
        proof {
            lemma_div_step(v, base);
        }
        digits(v / base, base).push(digit_char((v % base) as int))
    }
}

/// Division by a base of 2 or more takes a value down, and to 0 exactly when
/// the value is below the base.
pub proof fn lemma_div_step(v: nat, base: nat)
    by (nonlinear_arith)
    requires
        2 <= base,
    ensures
        v >= base ==> 0 < v / base < v,
        v < base ==> v / base == 0 && v % base == v,
        0 <= v % base < base,
{
}

/// `text` with zeros in front of it until it is `width` long.
pub open spec fn zero_padded(text: Seq<char>, width: nat) -> Seq<char> {
    if text.len() >= width {
        text
    } else {
        Seq::new((width - text.len()) as nat, |i: int| '0') + text
    }
}

/// A value in hexadecimal: the digits of its 32 bits read without a sign, in
/// lower case, with zeros in front up to `width`.
pub open spec fn render_hex(width: u8, v: c_int) -> Seq<char> {
    zero_padded(digits(unsigned(v) as nat, 16), width as nat)
}

/// A value in decimal, with a minus sign if it is negative.
pub open spec fn render_int(v: c_int) -> Seq<char> {
    if v < 0 {
        seq!['-'] + digits((-v) as nat, 10)
    } else {
        digits(v as nat, 10)
    }
}

/// The text of one piece. Literal runs, hexadecimal and signed decimal
/// conversions have a text; every other piece renders as nothing.
pub open spec fn render(arg: ArgumentView) -> Seq<char> {
    match arg {
        ArgumentView::Extra(d) => utf8_lossy(d),
        ArgumentView::Hex(width, v) => render_hex(width, v),
        ArgumentView::Int(v) => render_int(v),
        _ => Seq::empty(),
    }
}

/// The text of the first `n` pieces, one after the other.
pub open spec fn render_all(items: Seq<ArgumentView>, n: int) -> Seq<char>
    decreases n,
{
    if n <= 0 {
        Seq::empty()
    } else {
        render_all(items, n - 1) + render(items[n - 1])
    }
}

fn digit(d: u8) -> (c: char)
    requires
        d < 16,
    ensures
        c == digit_char(d as int),
{
    if d < 10 {
        (0x30 + d) as char
    } else {
        (0x61 + d - 10) as char
    }
}

/// Appends the digits of `v` in the base `base`, with zeros in front of them
/// up to `width`.
fn write_digits(w: &mut String, v: u64, base: u64, width: usize)
    requires
        2 <= base <= 16,
    ensures
        final(w)@ == old(w)@ + zero_padded(digits(v as nat, base as nat), width as nat),
{
    let mut rev: Vec<char> = Vec::new();
    proof {
        lemma_div_step(v as nat, base as nat);
    }
    rev.push(digit((v % base) as u8));
    let mut rest: u64 = v / base;
    proof {
        assert(rev@.reverse() =~= seq![digit_char((v % base) as int)]);
        if rest > 0 {
            assert(digits(v as nat, base as nat) =~= digits(rest as nat, base as nat)
                + rev@.reverse());
        } else {
            assert(digits(v as nat, base as nat) =~= rev@.reverse());
        }
    }
    while rest > 0
        invariant
            2 <= base <= 16,
            rev@.len() >= 1,
            digits(v as nat, base as nat) == (if rest > 0 {
                digits(rest as nat, base as nat)
            } else {
                Seq::<char>::empty()
            }) + rev@.reverse(),
        decreases rest,
    {
        let ghost before = rev@;
        proof {
            lemma_div_step(rest as nat, base as nat);
        }
        rev.push(digit((rest % base) as u8));
        proof {
            assert(rev@.reverse() =~= seq![digit_char((rest % base) as int)] + before.reverse());
            if rest / base > 0 {
                assert(digits(rest as nat, base as nat) + before.reverse() =~= digits(
                    (rest / base) as nat,
                    base as nat,
                ) + rev@.reverse());
            } else {
                assert(digits(rest as nat, base as nat) + before.reverse() =~= rev@.reverse());
            }
        }
        rest = rest / base;
    }
    let ghost text = digits(v as nat, base as nat);
    proof {
        assert(text =~= rev@.reverse());
    }
    let mut pad: usize = rev.len();
    while pad < width
        invariant
            rev@.len() <= pad,
            pad <= width || pad == rev@.len(),
            w@ == old(w)@ + Seq::new((pad - rev@.len()) as nat, |i: int| '0'),
        decreases width - pad,
    {
        push_char(w, '0');
        pad = pad + 1;
        proof {
            assert(w@ =~= old(w)@ + Seq::new((pad - rev@.len()) as nat, |i: int| '0'));
        }
    }
    let ghost padded = w@;
    let mut k: usize = rev.len();
    while k > 0
        invariant
            k <= rev@.len(),
            text == rev@.reverse(),
            w@ == padded + text.subrange(0, rev@.len() - k),
        decreases k,
    {
        k = k - 1;
        push_char(w, rev[k]);
        proof {
            assert(w@ =~= padded + text.subrange(0, rev@.len() - k));
        }
    }
    proof {
        assert(text.subrange(0, rev@.len() as int) =~= text);
        assert(w@ =~= old(w)@ + zero_padded(text, width as nat));
    }
}

/// Renders one piece at the end of `w`.
pub fn to_write<'a>(w: &mut String, arg: Argument<'a>)
    ensures
        final(w)@ == old(w)@ + render(arg@),
{
    match arg {
        Argument::Extra(d) => {
            let text = lossy(d);
            w.append(text.as_str());
        },
        Argument::Hex(width, data) => {
            write_digits(w, to_unsigned(data) as u64, 16, width as usize);
        },
        Argument::Int(data) => {
            if data < 0 {
                push_char(w, '-');
                write_digits(w, (-(data as i64)) as u64, 10, 0);
                proof {
                    assert(w@ =~= old(w)@ + render_int(data));
                }
            } else {
                write_digits(w, data as u64, 10, 0);
            }
        },
        _ => {
            proof {
                assert(w@ =~= old(w)@ + render(arg@));
            }
        },
    }
}

/// Renders the pieces of `items` in order at the end of `w`.
pub fn write_all<'a>(w: &mut String, items: &Vec<Argument<'a>>)
    ensures
        final(w)@ == old(w)@ + render_all(views(items@), items@.len() as int),
{
    let mut i: usize = 0;
    proof {
        assert(w@ =~= old(w)@ + render_all(views(items@), 0));
    }
    while i < items.len()
        invariant
            i <= items@.len(),
            w@ == old(w)@ + render_all(views(items@), i as int),
        decreases items@.len() - i,
    {
        let ghost before = w@;
        to_write(w, items[i]);
        i = i + 1;
        proof {
            assert(w@ =~= old(w)@ + render_all(views(items@), i as int));
        }
    }
}

} // verus!
