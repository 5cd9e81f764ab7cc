use vstd::prelude::*;

verus! {

/// The character of a decimal digit `d` (`0 <= d < 10`).
pub open spec fn digit_char(d: int) -> char {
    if d == 0 {
        '0'
    } else if d == 1 {
        '1'
    } else if d == 2 {
        '2'
    } else if d == 3 {
        '3'
    } else if d == 4 {
        '4'
    } else if d == 5 {
        '5'
    } else if d == 6 {
        '6'
    } else if d == 7 {
        '7'
    } else if d == 8 {
        '8'
    } else {
        '9'
    }
}

pub open spec fn is_digit(c: char) -> bool {
    '0' <= c && c <= '9'
}

/// Decimal text of a natural number, without leading zeros.
pub open spec fn nat_text(n: nat) -> Seq<char>
    decreases n,
{
    if n < 10 {
        seq![digit_char(n as int)]
    } else {
        nat_text(n / 10).push(digit_char((n % 10) as int))
    }
}

/// Decimal text of an integer, with a leading `-` when negative.
pub open spec fn int_text(n: int) -> Seq<char> {
    if n < 0 {
        seq!['-'] + nat_text((-n) as nat)
    } else {
        nat_text(n as nat)
    }
}

/// The last `k` decimal digits of `n`, zero-padded, most significant first.
pub open spec fn padded_text(n: nat, k: nat) -> Seq<char>
    decreases k,
{
    if k == 0 {
        seq![]
    } else {
        padded_text(n / 10, (k - 1) as nat).push(digit_char((n % 10) as int))
    }
}

pub open spec fn ansi_open(bold: bool, code: int) -> Seq<char> {
    seq!['\x1B', '[', if bold { '1' } else { '0' }, ';'] + int_text(code) + seq!['m']
}

pub open spec fn ansi_reset() -> Seq<char> {
    seq!['\x1B', '[', '0', ';', '0', 'm']
}

/// `text` wrapped in the ANSI escape codes for colour `code`.
pub open spec fn colored(text: Seq<char>, code: int, bold: bool) -> Seq<char> {
    ansi_open(bold, code) + text + ansi_reset()
}

fn digit_str(d: u64) -> (r: &'static str)
    requires
        d < 10,
    ensures
        r@ == seq![digit_char(d as int)],
{
    if d == 0 {
        proof { reveal_strlit("0"); }
        "0"
    } else if d == 1 {
        proof { reveal_strlit("1"); }
        "1"
    } else if d == 2 {
        proof { reveal_strlit("2"); }
        "2"
    } else if d == 3 {
        proof { reveal_strlit("3"); }
        "3"
    } else if d == 4 {
        proof { reveal_strlit("4"); }
        "4"
    } else if d == 5 {
        proof { reveal_strlit("5"); }
        "5"
    } else if d == 6 {
        proof { reveal_strlit("6"); }
        "6"
    } else if d == 7 {
        proof { reveal_strlit("7"); }
        "7"
    } else if d == 8 {
        proof { reveal_strlit("8"); }
        "8"
    } else {
        proof { reveal_strlit("9"); }
        "9"
    }
}

/// Decimal text of `n`.
pub fn nat_to_text(n: u128) -> (r: String)
    ensures
        r@ == nat_text(n as nat),
    decreases n,
{
    if n < 10 {
        String::from_str(digit_str(n as u64))
    } else {
        let mut s = nat_to_text(n / 10);
        s.append(digit_str((n % 10) as u64));
        s
    }
}

/// Decimal text of `n`, signed.
pub fn int_to_text(n: i128) -> (r: String)
    requires
        n > i128::MIN,
    ensures
        r@ == int_text(n as int),
{
    if n < 0 {
        let mut s = String::from_str("-");
        proof { reveal_strlit("-"); }
        let digits = nat_to_text((-n) as u128);
        s.append(digits.as_str());
        s
    } else {
        nat_to_text(n as u128)
    }
}

/// The last `k` decimal digits of `n`, zero-padded.
pub fn padded_to_text(n: u128, k: u32) -> (r: String)
    ensures
        r@ == padded_text(n as nat, k as nat),
    decreases k,
{
    if k == 0 {
        String::new()
    } else {
        let mut s = padded_to_text(n / 10, k - 1);
        s.append(digit_str((n % 10) as u64));
        s
    }
}

fn ansi_wrap(text: &str, code: i32, bold: bool) -> (r: String)
    ensures
        r@ == colored(text@, code as int, bold),
{
    let mut s = if bold {
        proof { reveal_strlit("\x1B[1;"); }
        String::from_str("\x1B[1;")
    } else {
        proof { reveal_strlit("\x1B[0;"); }
        String::from_str("\x1B[0;")
    };
    let code_text = int_to_text(code as i128);
    s.append(code_text.as_str());
    proof { reveal_strlit("m"); }
    s.append("m");
    s.append(text);
    proof { reveal_strlit("\x1B[0;0m"); }
    s.append("\x1B[0;0m");
    proof {
        assert(s@ =~= colored(text@, code as int, bold));
    }
    s
}

/// Return string with ANSI color codes.
pub fn color(text: &str, code: i32) -> (r: String)
    ensures
        r@ == colored(text@, code as int, false),
{
    ansi_wrap(text, code, false)
}

/// Return string with ANSI color codes for bold text.
pub fn color_bold(text: &str, code: i32) -> (r: String)
    ensures
        r@ == colored(text@, code as int, true),
{
    ansi_wrap(text, code, true)
}

/// Types whose name can be told at run time.
pub trait TypeLabel {
    spec fn label() -> Seq<char>;

    fn label_text() -> (r: String)
        ensures
            r@ == Self::label(),
    ;
}

impl TypeLabel for bool {
    open spec fn label() -> Seq<char> {
        "bool"@
    }

    fn label_text() -> (r: String) {
        proof { reveal_strlit("bool"); }
        String::from_str("bool")
    }
}

impl TypeLabel for char {
    open spec fn label() -> Seq<char> {
        "char"@
    }

    fn label_text() -> (r: String) {
        proof { reveal_strlit("char"); }
        String::from_str("char")
    }
}

impl TypeLabel for i8 {
    open spec fn label() -> Seq<char> {
        "i8"@
    }

    fn label_text() -> (r: String) {
        proof { reveal_strlit("i8"); }
        String::from_str("i8")
    }
}

impl TypeLabel for i16 {
    open spec fn label() -> Seq<char> {
        "i16"@
    }

    fn label_text() -> (r: String) {
        proof { reveal_strlit("i16"); }
        String::from_str("i16")
    }
}

impl TypeLabel for i32 {
    open spec fn label() -> Seq<char> {
        "i32"@
    }

    fn label_text() -> (r: String) {
        proof { reveal_strlit("i32"); }
        String::from_str("i32")
    }
}

impl TypeLabel for i64 {
    open spec fn label() -> Seq<char> {
        "i64"@
    }

    fn label_text() -> (r: String) {
        proof { reveal_strlit("i64"); }
        String::from_str("i64")
    }
}

impl TypeLabel for i128 {
    open spec fn label() -> Seq<char> {
        "i128"@
    }

    fn label_text() -> (r: String) {
        proof { reveal_strlit("i128"); }
        String::from_str("i128")
    }
}

impl TypeLabel for isize {
    open spec fn label() -> Seq<char> {
        "isize"@
    }

    fn label_text() -> (r: String) {
        proof { reveal_strlit("isize"); }
        String::from_str("isize")
    }
}

impl TypeLabel for u8 {
    open spec fn label() -> Seq<char> {
        "u8"@
    }

    fn label_text() -> (r: String) {
        proof { reveal_strlit("u8"); }
        String::from_str("u8")
    }
}

impl TypeLabel for u16 {
    open spec fn label() -> Seq<char> {
        "u16"@
    }

    fn label_text() -> (r: String) {
        proof { reveal_strlit("u16"); }
        String::from_str("u16")
    }
}

impl TypeLabel for u32 {
    open spec fn label() -> Seq<char> {
        "u32"@
    }

    fn label_text() -> (r: String) {
        proof { reveal_strlit("u32"); }
        String::from_str("u32")
    }
}

impl TypeLabel for u64 {
    open spec fn label() -> Seq<char> {
        "u64"@
    }

    fn label_text() -> (r: String) {
        proof { reveal_strlit("u64"); }
        String::from_str("u64")
    }
}

impl TypeLabel for u128 {
    open spec fn label() -> Seq<char> {
        "u128"@
    }

    fn label_text() -> (r: String) {
        proof { reveal_strlit("u128"); }
        String::from_str("u128")
    }
}

impl TypeLabel for usize {
    open spec fn label() -> Seq<char> {
        "usize"@
    }

    fn label_text() -> (r: String) {
        proof { reveal_strlit("usize"); }
        String::from_str("usize")
    }
}

impl TypeLabel for String {
    open spec fn label() -> Seq<char> {
        "alloc::string::String"@
    }

    fn label_text() -> (r: String) {
        proof { reveal_strlit("alloc::string::String"); }
        String::from_str("alloc::string::String")
    }
}

/// Get the name of the type of a value.
pub fn get_type<T: TypeLabel>(_v: &T) -> (r: String)
    ensures
        r@ == T::label(),
{
    T::label_text()
}

} // verus!
