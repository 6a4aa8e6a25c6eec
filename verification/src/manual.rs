//! A bot steered by hand: what the lines typed at its prompt ask for.
use vstd::prelude::*;

use crate::bot_logger::BotLogger;
use crate::text::{push_char, push_str, push_u64, str_eq};
use crate::types::{Dir, Pos};

verus! {

/// A bot that does what is typed at its prompt.
pub struct TerminalControlledBot {
    pub rpc: BotLogger,
}

/// What a command line asks for.
#[derive(Debug, Clone, Copy, PartialEq, Eq, Structural)]
pub enum TerminalCommand {
    /// A step in a direction.
    Move(Dir),
    /// A walk to coordinates, which are asked for next.
    MoveTo,
    /// Nothing known.
    Unknown,
}

/// The characters Unicode counts as white space.
pub open spec fn is_space(c: char) -> bool {
    let v = c as u32;
    (0x9 <= v <= 0xD) || v == 0x20 || v == 0x85 || v == 0xA0 || v == 0x1680 || (0x2000 <= v
        <= 0x200A) || v == 0x2028 || v == 0x2029 || v == 0x202F || v == 0x205F || v == 0x3000
}

/// `s` without the white space at its start.
pub open spec fn trim_start(s: Seq<char>) -> Seq<char>
    decreases s.len(),
{
    if s.len() > 0 && is_space(s[0]) {
        trim_start(s.drop_first())
    } else {
        s
    }
}

/// `s` without the white space at its end.
pub open spec fn trim_end(s: Seq<char>) -> Seq<char>
    decreases s.len(),
{
    if s.len() > 0 && is_space(s.last()) {
        trim_end(s.drop_last())
    } else {
        s
    }
}

/// `s` without white space at either end.
pub open spec fn trimmed(s: Seq<char>) -> Seq<char> {
    trim_end(trim_start(s))
}

/// The words of `s`: its longest runs without white space, in order.
pub open spec fn words(s: Seq<char>) -> Seq<Seq<char>>
    decreases s.len(),
{
    if s.len() == 0 {
        seq![]
    } else {
        let w = words(s.drop_last());
        let c = s.last();
        if is_space(c) {
            w
        } else if s.len() >= 2 && !is_space(s[s.len() - 2]) {
            w.update(w.len() - 1, w.last().push(c))
        } else {
            w.push(seq![c])
        }
    }
}

/// The number the decimal digits `d` write.
pub open spec fn digits_value(d: Seq<char>) -> int
    decreases d.len(),
{
    if d.len() == 0 {
        0
    } else {
        digits_value(d.drop_last()) * 10 + (d.last() as u32 - '0' as u32)
    }
}

pub open spec fn all_digits(d: Seq<char>) -> bool {
    forall|i: int| 0 <= i < d.len() ==> '0' <= #[trigger] d[i] <= '9'
}

/// The `usize` that `s` writes: an optional plus sign and at least one decimal digit, with a
/// value that fits.
pub open spec fn parsed_usize(s: Seq<char>) -> Option<usize> {
    let d = if s.len() > 0 && s[0] == '+' {
        s.drop_first()
    } else {
        s
    };
    if d.len() > 0 && all_digits(d) && digits_value(d) <= usize::MAX {
        Some(digits_value(d) as usize)
    } else {
        None
    }
}

/// The coordinate written by word `i` of `w`, zero when there is none or it is no number.
pub open spec fn coordinate(w: Seq<Seq<char>>, i: int) -> usize {
    if i < w.len() {
        match parsed_usize(w[i]) {
            Some(v) => v,
            None => 0,
        }
    } else {
        0
    }
}

/// The command a line asks for.
pub open spec fn command_of(line: Seq<char>) -> TerminalCommand {
    let c = trimmed(line);
    if c == "move-up"@ {
        TerminalCommand::Move(Dir::Up)
    } else if c == "move-down"@ {
        TerminalCommand::Move(Dir::Down)
    } else if c == "move-left"@ {
        TerminalCommand::Move(Dir::Left)
    } else if c == "move-right"@ {
        TerminalCommand::Move(Dir::Right)
    } else if c == "move-to"@ {
        TerminalCommand::MoveTo
    } else {
        TerminalCommand::Unknown
    }
}

proof fn lemma_trim_start_suffix(s: Seq<char>)
    ensures
        exists|a: int| 0 <= a <= s.len() && trim_start(s) == s.subrange(a, s.len() as int) && (forall|
            j: int,
        | 0 <= j < a ==> is_space(#[trigger] s[j])) && (a < s.len() ==> !is_space(s[a])),
    decreases s.len(),
{
    if s.len() > 0 && is_space(s[0]) {
        lemma_trim_start_suffix(s.drop_first());
        let a = choose|a: int|
            0 <= a <= s.drop_first().len() && trim_start(s.drop_first()) == s.drop_first().subrange(
                a,
                s.drop_first().len() as int,
            ) && (forall|j: int| 0 <= j < a ==> is_space(#[trigger] s.drop_first()[j])) && (a
                < s.drop_first().len() ==> !is_space(s.drop_first()[a]));
        assert(s.drop_first().subrange(a, s.drop_first().len() as int) =~= s.subrange(
            a + 1,
            s.len() as int,
        ));
        assert forall|j: int| 0 <= j < a + 1 implies is_space(#[trigger] s[j]) by {
            if j > 0 {
                assert(s[j] == s.drop_first()[j - 1]);
            }
        }
        assert(a + 1 < s.len() ==> s[a + 1] == s.drop_first()[a]);
    } else {
        assert(s.subrange(0, s.len() as int) =~= s);
    }
}

/// The index of the first character of `s` at or after `i` that is not white space.
fn skip_space_forward(s: &str, i: usize, n: usize) -> (r: usize)
    requires
        n == s@.len(),
        i <= n,
    ensures
        i <= r <= n,
        forall|j: int| i <= j < r ==> is_space(#[trigger] s@[j]),
        r < n ==> !is_space(s@[r as int]),
    decreases n - i,
{
    if i < n && space_char(s.get_char(i)) {
        skip_space_forward(s, i + 1, n)
    } else {
        i
    }
}

/// Whether `c` is white space.
pub fn space_char(c: char) -> (r: bool)
    ensures
        r == is_space(c),
{
    let v = c as u32;
    (0x9 <= v && v <= 0xD) || v == 0x20 || v == 0x85 || v == 0xA0 || v == 0x1680 || (0x2000 <= v
        && v <= 0x200A) || v == 0x2028 || v == 0x2029 || v == 0x202F || v == 0x205F || v == 0x3000
}

proof fn lemma_trim_end_prefix(s: Seq<char>)
    ensures
        exists|b: int| 0 <= b <= s.len() && trim_end(s) == s.subrange(0, b) && (forall|j: int|
            b <= j < s.len() ==> is_space(#[trigger] s[j])) && (b > 0 ==> !is_space(s[b - 1])),
    decreases s.len(),
{
    if s.len() > 0 && is_space(s.last()) {
        lemma_trim_end_prefix(s.drop_last());
        let b = choose|b: int|
            0 <= b <= s.drop_last().len() && trim_end(s.drop_last()) == s.drop_last().subrange(0, b)
                && (forall|j: int| b <= j < s.drop_last().len() ==> is_space(#[trigger] s.drop_last()[j]))
                && (b > 0 ==> !is_space(s.drop_last()[b - 1]));
        assert(s.drop_last().subrange(0, b) =~= s.subrange(0, b));
        assert forall|j: int| b <= j < s.len() implies is_space(#[trigger] s[j]) by {
            if j < s.len() - 1 {
                assert(s[j] == s.drop_last()[j]);
            }
        }
        assert(b > 0 ==> s[b - 1] == s.drop_last()[b - 1]);
    } else {
        assert(s.subrange(0, s.len() as int) =~= s);
    }
}

proof fn lemma_trim_start_unique(s: Seq<char>, a: int)
    requires
        0 <= a <= s.len(),
        forall|j: int| 0 <= j < a ==> is_space(#[trigger] s[j]),
        a < s.len() ==> !is_space(s[a]),
    ensures
        trim_start(s) == s.subrange(a, s.len() as int),
{
    lemma_trim_start_suffix(s);
    let a2 = choose|a2: int|
        0 <= a2 <= s.len() && trim_start(s) == s.subrange(a2, s.len() as int) && (forall|j: int|
            0 <= j < a2 ==> is_space(#[trigger] s[j])) && (a2 < s.len() ==> !is_space(s[a2]));
    if a2 < a {
        assert(is_space(s[a2]));
    } else if a < a2 {
        assert(is_space(s[a]));
    }
}

proof fn lemma_trim_end_unique(s: Seq<char>, b: int)
    requires
        0 <= b <= s.len(),
        forall|j: int| b <= j < s.len() ==> is_space(#[trigger] s[j]),
        b > 0 ==> !is_space(s[b - 1]),
    ensures
        trim_end(s) == s.subrange(0, b),
{
    lemma_trim_end_prefix(s);
    let b2 = choose|b2: int|
        0 <= b2 <= s.len() && trim_end(s) == s.subrange(0, b2) && (forall|j: int|
            b2 <= j < s.len() ==> is_space(#[trigger] s[j])) && (b2 > 0 ==> !is_space(s[b2 - 1]));
    if b2 < b {
        assert(is_space(s[b - 1]));
    } else if b < b2 {
        assert(is_space(s[b2 - 1]));
    }
}

/// `s` without white space at either end.
pub fn trim(s: &str) -> (r: String)
    ensures
        r@ == trimmed(s@),
{
    let n = s.unicode_len();
    let a = skip_space_forward(s, 0, n);
    let mut b = n;
    while b > a && space_char(s.get_char(b - 1))
        invariant
            a <= b <= n,
            n == s@.len(),
            forall|j: int| b <= j < n ==> is_space(#[trigger] s@[j]),
            a < n ==> !is_space(s@[a as int]),
        decreases b,
    {
        b = b - 1;
    }
    let mut r = String::new();
    let mut k = a;
    while k < b
        invariant
            a <= k <= b,
            b <= n,
            n == s@.len(),
            r@ == s@.subrange(a as int, k as int),
        decreases b - k,
    {
        push_char(&mut r, s.get_char(k));
        proof {
            assert(r@ =~= s@.subrange(a as int, k as int + 1));
        }
        k = k + 1;
    }
    proof {
        lemma_trim_start_unique(s@, a as int);
        let t = s@.subrange(a as int, n as int);
        let bb = b - a;
        assert forall|j: int| bb <= j < t.len() implies is_space(#[trigger] t[j]) by {
            assert(t[j] == s@[a + j]);
        }
        if bb > 0 {
            assert(t[bb - 1] == s@[b - 1]);
            if b == a + 1 {
                assert(!is_space(s@[a as int]));
            }
        }
        lemma_trim_end_unique(t, bb);
        assert(t.subrange(0, bb) =~= s@.subrange(a as int, b as int));
    }
    r
}

/// The words of `s`.
pub fn split_words(s: &str) -> (r: Vec<String>)
    ensures
        r@.map_values(|w: String| w@) == words(s@),
{
    let n = s.unicode_len();
    let mut out: Vec<String> = Vec::new();
    let mut i: usize = 0;
    proof {
        assert(s@.take(0) =~= Seq::<char>::empty());
        assert(out@.map_values(|w: String| w@) =~= words(s@.take(0)));
    }
    while i < n
        invariant
            i <= n,
            n == s@.len(),
            out@.map_values(|w: String| w@) == words(s@.take(i as int)),
        decreases n - i,
    {
        let c = s.get_char(i);
        let ghost before = out@.map_values(|w: String| w@);
        proof {
            assert(s@.take(i as int + 1).drop_last() =~= s@.take(i as int));
            assert(s@.take(i as int + 1).last() == c);
        }
        if space_char(c) {
        } else if i >= 1 && !space_char(s.get_char(i - 1)) {
            proof {
                assert(s@.take(i as int + 1)[i - 1] == s@[i - 1]);
                assert(words(s@.take(i as int)).len() > 0) by {
                    lemma_words_last(s@.take(i as int));
                }
            }
            let k = out.len() - 1;
            let mut last = String::new();
            std::mem::swap(&mut last, &mut out[k]);
            push_char(&mut last, c);
            std::mem::swap(&mut last, &mut out[k]);
            proof {
                assert(out@.map_values(|w: String| w@) =~= before.update(
                    before.len() - 1,
                    before.last().push(c),
                ));
            }
        } else {
            let mut w = String::new();
            push_char(&mut w, c);
            out.push(w);
            proof {
                assert(out@.map_values(|w: String| w@) =~= before.push(seq![c]));
            }
        }
        i = i + 1;
    }
    proof {
        assert(s@.take(n as int) =~= s@);
    }
    out
}

proof fn lemma_words_last(s: Seq<char>)
    requires
        s.len() > 0,
        !is_space(s.last()),
    ensures
        words(s).len() > 0,
    decreases s.len(),
{
    if s.len() >= 2 && !is_space(s[s.len() - 2]) {
        assert(s.drop_last().last() == s[s.len() - 2]);
        lemma_words_last(s.drop_last());
    }
}

proof fn lemma_digits_value_bound(d: Seq<char>)
    requires
        all_digits(d),
    ensures
        digits_value(d) >= 0,
        d.len() > 0 ==> digits_value(d) >= digits_value(d.drop_last()),
    decreases d.len(),
{
    if d.len() > 0 {
        assert(all_digits(d.drop_last()));
        lemma_digits_value_bound(d.drop_last());
    }
}

/// The `usize` that `s` writes, if it writes one (see `parsed_usize`).
pub fn parse_usize(s: &str) -> (r: Option<usize>)
    ensures
        r == parsed_usize(s@),
{
    let n = s.unicode_len();
    let start: usize = if n > 0 && s.get_char(0) == '+' {
        1
    } else {
        0
    };
    let ghost d = if s@.len() > 0 && s@[0] == '+' {
        s@.drop_first()
    } else {
        s@
    };
    proof {
        assert(d =~= s@.subrange(start as int, n as int));
        assert(parsed_usize(s@) == (if d.len() > 0 && all_digits(d) && digits_value(d) <= usize::MAX {
            Some(digits_value(d) as usize)
        } else {
            None
        }));
    }
    if start == n {
        return None;
    }
    let mut v: usize = 0;
    let mut k = start;
    while k < n
        invariant
            start <= k <= n,
            n == s@.len(),
            d == s@.subrange(start as int, n as int),
            parsed_usize(s@) == (if d.len() > 0 && all_digits(d) && digits_value(d) <= usize::MAX {
                Some(digits_value(d) as usize)
            } else {
                None
            }),
            all_digits(s@.subrange(start as int, k as int)),
            v == digits_value(s@.subrange(start as int, k as int)),
        decreases n - k,
    {
        let c = s.get_char(k);
        proof {
            assert(s@.subrange(start as int, k as int + 1).drop_last() =~= s@.subrange(
                start as int,
                k as int,
            ));
            assert(s@.subrange(start as int, k as int + 1).last() == c);
        }
        if !('0' <= c && c <= '9') {
            proof {
                assert(d[k - start] == c);
            }
            return None;
        }
        let digit = (c as u32 - '0' as u32) as usize;
        let ten = v.checked_mul(10);
        let next = match ten {
            Some(t) => t.checked_add(digit),
            None => None,
        };
        match next {
            Some(x) => {
                v = x;
            },
            None => {
                proof {
                    let p = s@.subrange(start as int, k as int + 1);
                    assert(d.take(k - start + 1) =~= p);
                    assert(all_digits(p));
                    lemma_digits_prefix_bound(d, k - start + 1);
                }
                return None;
            },
        }
        k = k + 1;
    }
    proof {
        assert(s@.subrange(start as int, n as int) == d);
    }
    Some(v)
}

proof fn lemma_digits_prefix_bound(d: Seq<char>, k: int)
    requires
        0 <= k <= d.len(),
        all_digits(d.take(k)),
        digits_value(d.take(k)) > usize::MAX,
    ensures
        !(all_digits(d) && digits_value(d) <= usize::MAX),
    decreases d.len() - k,
{
    if k < d.len() && all_digits(d) {
        assert(d.take(k + 1).drop_last() =~= d.take(k));
        assert(all_digits(d.take(k + 1)));
        lemma_digits_value_bound(d.take(k + 1));
        lemma_digits_prefix_bound(d, k + 1);
    } else if k == d.len() {
        assert(d.take(k) =~= d);
    }
}

impl TerminalControlledBot {
    pub fn new(rpc: BotLogger) -> (r: Self)
        ensures
            r.rpc == rpc,
    {
        TerminalControlledBot { rpc }
    }

    /// What the line typed at the prompt asks for, logged: a step announces its direction,
    /// anything unknown is warned about.
    pub fn read_command(&mut self, input: &str) -> (r: TerminalCommand)
        ensures
            r == command_of(input@),
            final(self).rpc.bot_id == old(self).rpc.bot_id,
            final(self).rpc.current_tick == old(self).rpc.current_tick,
    {
        let command = trim(input);
        let c = command.as_str();
        if str_eq(c, "move-up") {
            self.rpc.info(String::from_str("Moving UP"));
            TerminalCommand::Move(Dir::Up)
        } else if str_eq(c, "move-down") {
            self.rpc.info(String::from_str("Moving DOWN"));
            TerminalCommand::Move(Dir::Down)
        } else if str_eq(c, "move-left") {
            self.rpc.info(String::from_str("Moving LEFT"));
            TerminalCommand::Move(Dir::Left)
        } else if str_eq(c, "move-right") {
            self.rpc.info(String::from_str("Moving RIGHT"));
            TerminalCommand::Move(Dir::Right)
        } else if str_eq(c, "move-to") {
            TerminalCommand::MoveTo
        } else {
            let mut m = String::new();
            push_str(&mut m, "Unknown command: '");
            push_str(&mut m, c);
            push_str(&mut m, "'");
            self.rpc.warn(m);
            TerminalCommand::Unknown
        }
    }

    /// The coordinates typed as "x y", each zero when missing or no number; logged.
    pub fn read_coordinates(&mut self, line: &str) -> (r: Pos)
        ensures
            r == Pos((coordinate(words(line@), 0), coordinate(words(line@), 1))),
            final(self).rpc.bot_id == old(self).rpc.bot_id,
            final(self).rpc.current_tick == old(self).rpc.current_tick,
    {
        let coords = split_words(line);
        proof {
            assert(coords@.len() == words(line@).len());
        }
        let x: usize = if coords.len() > 0 {
            proof {
                assert(coords@[0]@ == words(line@)[0]);
            }
            match parse_usize(coords[0].as_str()) {
                Some(v) => v,
                None => 0,
            }
        } else {
            0
        };
        let y: usize = if coords.len() > 1 {
            proof {
                assert(coords@[1]@ == words(line@)[1]);
            }
            match parse_usize(coords[1].as_str()) {
                Some(v) => v,
                None => 0,
            }
        } else {
            0
        };
        let mut m = String::new();
        push_str(&mut m, "Moving to coordinates (");
        push_u64(&mut m, x as u64);
        push_str(&mut m, ", ");
        push_u64(&mut m, y as u64);
        push_str(&mut m, ")");
        self.rpc.info(m);
        Pos((x, y))
    }
}

} // verus!
