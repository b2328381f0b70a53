use vstd::prelude::*;

use crate::geometry::BlockPos;
use crate::notice::ParseError;
use crate::queue::same_text;

verus! {

/// The item a `withdraw` without an argument asks for.
pub const DEFAULT_WITHDRAW: &'static str = "0";

/// A command line, parsed.
#[derive(Debug)]
pub enum Command {
    SayHi,
    /// Index every container of the region.
    Index,
    /// Forget every record.
    ClearDb,
    /// List what the container at this position holds.
    ViewChest(BlockPos),
    /// Report where this item lies.
    Find(String),
    /// Take this item out of every container and bring it to the depot.
    Withdraw(String),
    /// Open the depot.
    Deposit,
    /// A verb that means nothing.
    Unknown,
}

/// The fields of a line split at every space; two spaces in a row give an
/// empty field between them.
pub open spec fn split_fields(s: Seq<char>) -> Seq<Seq<char>>
    decreases s.len(),
{
    if s.len() == 0 {
        seq![Seq::empty()]
    } else {
        let f = split_fields(s.drop_last());
        if s.last() == ' ' {
            f.push(Seq::empty())
        } else {
            f.update(f.len() - 1, f.last().push(s.last()))
        }
    }
}

proof fn lemma_split_fields_nonempty(s: Seq<char>)
    ensures
        split_fields(s).len() >= 1,
    decreases s.len(),
{
    if s.len() > 0 {
        lemma_split_fields_nonempty(s.drop_last());
    }
}

pub open spec fn is_digit(c: char) -> bool {
    '0' <= c <= '9'
}

/// The value of a string of decimal digits.
pub open spec fn digits_value(s: Seq<char>) -> int
    decreases s.len(),
{
    if s.len() == 0 {
        0
    } else {
        digits_value(s.drop_last()) * 10 + (s.last() as int - '0' as int)
    }
}

/// Whether a string starts with a sign.
pub open spec fn has_sign(s: Seq<char>) -> bool {
    s.len() > 0 && (s[0] == '-' || s[0] == '+')
}

/// A string without its sign, if it has one.
pub open spec fn unsigned_part(s: Seq<char>) -> Seq<char> {
    if has_sign(s) {
        s.drop_first()
    } else {
        s
    }
}

/// Whether every character is a decimal digit.
pub open spec fn all_digits(s: Seq<char>) -> bool {
    forall|i: int| 0 <= i < s.len() ==> is_digit(#[trigger] s[i])
}

/// The integer a string denotes: an optional sign, then one or more decimal
/// digits.
pub open spec fn int_of(s: Seq<char>) -> Option<int> {
    let digits = unsigned_part(s);
    if digits.len() > 0 && all_digits(digits) {
        Some(
            if has_sign(s) && s[0] == '-' {
                -digits_value(digits)
            } else {
                digits_value(digits)
            },
        )
    } else {
        None
    }
}

/// The `i32` a string denotes, if it denotes one in range.
pub open spec fn i32_of(s: Seq<char>) -> Option<i32> {
    match int_of(s) {
        Some(v) => if i32::MIN <= v <= i32::MAX {
            Some(v as i32)
        } else {
            None
        },
        None => None,
    }
}

/// A bound past which the digits read so far already put the value out of range.
const DIGITS_CAP: i64 = 2147483649;

/// Parses a signed decimal integer that fits in `i32`.
pub fn parse_i32(s: &str) -> (r: Option<i32>)
    ensures
        r == i32_of(s@),
{
    let n = s.unicode_len();
    let mut start: usize = 0;
    let mut negative = false;
    if n > 0 {
        let c = s.get_char(0);
        if c == '-' || c == '+' {
            start = 1;
            negative = c == '-';
        }
    }
    let ghost digits = unsigned_part(s@);
    if start >= n {
        return None;
    }
    let mut acc: i64 = 0;
    let mut i: usize = start;
    while i < n
        invariant
            n == s@.len(),
            start <= i <= n,
            (start == 1) == has_sign(s@),
            start <= 1,
            negative == (start == 1 && s@[0] == '-'),
            digits == unsigned_part(s@),
            digits == s@.subrange(start as int, n as int),
            forall|j: int| 0 <= j < i - start ==> is_digit(#[trigger] digits[j]),
            0 <= acc <= DIGITS_CAP,
            digits_value(digits.take(i - start)) >= DIGITS_CAP ==> acc == DIGITS_CAP,
            digits_value(digits.take(i - start)) < DIGITS_CAP ==> acc == digits_value(
                digits.take(i - start),
            ),
            digits_value(digits.take(i - start)) >= 0,
        decreases n - i,
    {
        let c = s.get_char(i);
        if !('0' <= c && c <= '9') {
            proof {
                assert(digits[i - start] == c);
                assert(!is_digit(digits[i - start]));
                assert(!all_digits(digits));
            }
            return None;
        }
        let d = (c as u32 - '0' as u32) as i64;
        proof {
            let t = digits.take(i - start + 1);
            assert(t.drop_last() == digits.take(i - start));
            assert(t.last() == c);
        }
        acc = acc * 10 + d;
        if acc > DIGITS_CAP {
            acc = DIGITS_CAP;
        }
        i += 1;
    }
    proof {
        assert(digits.take(n - start) == digits);
    }
    if negative {
        if acc > 2147483648 {
            None
        } else {
            Some((0 - acc) as i32)
        }
    } else {
        if acc > 2147483647 {
            None
        } else {
            Some(acc as i32)
        }
    }
}

/// Splits a line at every space.
pub fn split_line(line: &str) -> (r: Vec<String>)
    ensures
        r@.map_values(|f: String| f@) == split_fields(line@),
{
    let n = line.unicode_len();
    let mut done: Vec<String> = Vec::new();
    let mut start: usize = 0;
    let mut i: usize = 0;
    proof {
        assert(line@.take(0) =~= Seq::<char>::empty());
        assert(done@.map_values(|f: String| f@).push(line@.subrange(0, 0)) =~= seq![Seq::<char>::empty()]);
    }
    while i < n
        invariant
            n == line@.len(),
            start <= i <= n,
            split_fields(line@.take(i as int)) == done@.map_values(|f: String| f@).push(
                line@.subrange(start as int, i as int),
            ),
        decreases n - i,
    {
        let c = line.get_char(i);
        let ghost before = done@.map_values(|f: String| f@);
        proof {
            let t = line@.take(i + 1);
            assert(t.drop_last() == line@.take(i as int));
            assert(t.last() == c);
        }
        if c == ' ' {
            let field = line.substring_char(start, i);
            done.push(String::from_str(field));
            start = i + 1;
            proof {
                assert(done@.map_values(|f: String| f@) =~= before.push(field@));
                assert(line@.subrange(start as int, i + 1) =~= Seq::<char>::empty());
            }
        } else {
            proof {
                let f = split_fields(line@.take(i as int));
                assert(line@.subrange(start as int, i + 1) =~= line@.subrange(start as int, i as int).push(c));
                assert(f.update(f.len() - 1, f.last().push(c)) =~= before.push(line@.subrange(start as int, i + 1)));
            }
        }
        i += 1;
    }
    let last = line.substring_char(start, n);
    let ghost before = done@.map_values(|f: String| f@);
    done.push(String::from_str(last));
    proof {
        assert(line@.take(n as int) == line@);
        assert(done@.map_values(|f: String| f@) =~= before.push(last@));
    }
    done
}

/// The command a line holds, by its fields: the verb first, then its
/// arguments. Arguments past those a verb takes are ignored.
pub open spec fn command_of(f: Seq<Seq<char>>) -> Result<CommandView, ParseError> {
    let verb = f[0];
    if verb == "sayhi"@ {
        Ok(CommandView::SayHi)
    } else if verb == "index"@ {
        Ok(CommandView::Index)
    } else if verb == "cleardb"@ {
        Ok(CommandView::ClearDb)
    } else if verb == "viewchest"@ {
        if f.len() < 4 {
            Err(ParseError::MissingArgument)
        } else if i32_of(f[1]) is None || i32_of(f[2]) is None || i32_of(f[3]) is None {
            Err(ParseError::BadNumber)
        } else {
            Ok(
                CommandView::ViewChest(
                    BlockPos {
                        x: i32_of(f[1])->Some_0,
                        y: i32_of(f[2])->Some_0,
                        z: i32_of(f[3])->Some_0,
                    },
                ),
            )
        }
    } else if verb == "find"@ {
        if f.len() < 2 {
            Err(ParseError::MissingArgument)
        } else {
            Ok(CommandView::Find(f[1]))
        }
    } else if verb == "withdraw"@ {
        Ok(
            CommandView::Withdraw(
                if f.len() < 2 {
                    DEFAULT_WITHDRAW@
                } else {
                    f[1]
                },
            ),
        )
    } else if verb == "deposit"@ {
        Ok(CommandView::Deposit)
    } else {
        Ok(CommandView::Unknown)
    }
}

/// A command with its text arguments as character sequences.
pub ghost enum CommandView {
    SayHi,
    Index,
    ClearDb,
    ViewChest(BlockPos),
    Find(Seq<char>),
    Withdraw(Seq<char>),
    Deposit,
    Unknown,
}

impl Command {
    pub open spec fn view(&self) -> CommandView {
        match self {
            Command::SayHi => CommandView::SayHi,
            Command::Index => CommandView::Index,
            Command::ClearDb => CommandView::ClearDb,
            Command::ViewChest(p) => CommandView::ViewChest(*p),
            Command::Find(s) => CommandView::Find(s@),
            Command::Withdraw(s) => CommandView::Withdraw(s@),
            Command::Deposit => CommandView::Deposit,
            Command::Unknown => CommandView::Unknown,
        }
    }
}

/// Parses a command line.
pub fn parse_command(line: &str) -> (r: Result<Command, ParseError>)
    ensures
        match r {
            Ok(c) => command_of(split_fields(line@)) == Ok::<CommandView, ParseError>(c.view()),
            Err(e) => command_of(split_fields(line@)) == Err::<CommandView, ParseError>(e),
        },
{
    let fields = split_line(line);
    let ghost f = split_fields(line@);
    proof {
        lemma_split_fields_nonempty(line@);
        assert(fields@.len() == f.len());
        assert forall|i: int| 0 <= i < fields@.len() implies fields@[i]@ == f[i] by {
            assert(fields@.map_values(|s: String| s@)[i] == fields@[i]@);
        }
    }
    let verb = fields[0].as_str();
    if same_text(verb, "sayhi") {
        Ok(Command::SayHi)
    } else if same_text(verb, "index") {
        Ok(Command::Index)
    } else if same_text(verb, "cleardb") {
        Ok(Command::ClearDb)
    } else if same_text(verb, "viewchest") {
        if fields.len() < 4 {
            return Err(ParseError::MissingArgument);
        }
        let x = parse_i32(fields[1].as_str());
        let y = parse_i32(fields[2].as_str());
        let z = parse_i32(fields[3].as_str());
        match (x, y, z) {
            (Some(x), Some(y), Some(z)) => Ok(Command::ViewChest(BlockPos { x, y, z })),
            _ => Err(ParseError::BadNumber),
        }
    } else if same_text(verb, "find") {
        if fields.len() < 2 {
            return Err(ParseError::MissingArgument);
        }
        Ok(Command::Find(fields[1].clone()))
    } else if same_text(verb, "withdraw") {
        if fields.len() < 2 {
            Ok(Command::Withdraw(String::from_str(DEFAULT_WITHDRAW)))
        } else {
            Ok(Command::Withdraw(fields[1].clone()))
        }
    } else if same_text(verb, "deposit") {
        Ok(Command::Deposit)
    } else {
        Ok(Command::Unknown)
    }
}

} // verus!
