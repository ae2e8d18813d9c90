use vstd::prelude::*;

verus! {

/// The decimal digits of `n` as ASCII bytes, most significant first.
pub open spec fn decimal(n: nat) -> Seq<u8>
    decreases n,
{
    if n < 10 {
        seq![(48 + n) as u8]
    } else {
        decimal(n / 10).push((48 + n % 10) as u8)
    }
}

/// A terminal control sequence: ESC, `[`, the decimal parameter, and the
/// command byte.
pub open spec fn control_sequence(parameter: nat, command: u8) -> Seq<u8> {
    seq![0x1bu8, 0x5bu8] + decimal(parameter) + seq![command]
}

fn decimal_bytes(n: usize) -> (r: Vec<u8>)
    ensures
        r@ == decimal(n as nat),
    decreases n,
{
    if n < 10 {
        let mut r: Vec<u8> = Vec::new();
        r.push((48 + n) as u8);
        proof {
            assert(r@ =~= decimal(n as nat));
        }
        r
    } else {
        let mut r = decimal_bytes(n / 10);
        r.push((48 + n % 10) as u8);
        r
    }
}

fn control(parameter: usize, command: u8) -> (r: Vec<u8>)
    ensures
        r@ == control_sequence(parameter as nat, command),
{
    let mut r: Vec<u8> = Vec::new();
    r.push(0x1b);
    r.push(0x5b);
    let mut digits = decimal_bytes(parameter);
    r.append(&mut digits);
    r.push(command);
    proof {
        assert(r@ =~= control_sequence(parameter as nat, command));
    }
    r
}

/// Moves the terminal cursor up by `characters` lines.
pub fn move_up(characters: usize) -> (r: Vec<u8>)
    ensures
        r@ == control_sequence(characters as nat, 0x41),
{
    control(characters, 0x41)
}

/// Moves the terminal cursor down by `characters` lines.
pub fn move_down(characters: usize) -> (r: Vec<u8>)
    ensures
        r@ == control_sequence(characters as nat, 0x42),
{
    control(characters, 0x42)
}

/// Moves the terminal cursor right by `characters` columns.
pub fn move_right(characters: usize) -> (r: Vec<u8>)
    ensures
        r@ == control_sequence(characters as nat, 0x43),
{
    control(characters, 0x43)
}

/// Moves the terminal cursor left by `characters` columns.
pub fn move_left(characters: usize) -> (r: Vec<u8>)
    ensures
        r@ == control_sequence(characters as nat, 0x44),
{
    control(characters, 0x44)
}

/// Moves the terminal cursor to the start of the line (far enough left
/// for any terminal width).
pub fn move_back() -> (r: Vec<u8>)
    ensures
        r@ == control_sequence(10000, 0x44),
{
    move_left(10000)
}

/// Erases the whole line the terminal cursor is on.
pub fn clear_line() -> (r: Vec<u8>)
    ensures
        r@ == control_sequence(2, 0x4b),
{
    control(2, 0x4b)
}

} // verus!
