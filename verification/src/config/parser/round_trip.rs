//! The parser reads the text of what it gave as what it gave.

use crate::config::conditions::ConditionView;
use crate::config::parser::base_parser::{
    access_rule, after, bool_rule, bracket_close, bracket_rule, chain_rule, class_holds,
    digit_rule, digits_value, dot_rule, float_rule, has_prefix, index_rule, index_value_rule,
    int_rule, is_alpha, is_digit, is_keyword, key_rule, lemma_bracket_close_bounds,
    lemma_run_end_bounds, literal_rule, null_rule, operator_rule, path_rule, rest_of, run_end,
    sign_rule, string_rule, value_rule, whitespace_rule, with_prefix, CharClass, Parsed,
    ParseErrorView,
};
use crate::config::parser::arguments_parser::{argument_rule, ParseArgumentErrorView};
use crate::config::parser::conditions_parser::{
    after_left, after_operator, after_right, condition_rule, ParseConditionErrorView,
};
use crate::config::parser::parser_type::{
    AccessPathView, AccessView, Chain, FloatLiteralView, IndexValueView, LiteralView,
    Operator,
    ValueView,
};
use crate::config::parser::printer::{
    access_text, chain_text, condition_text, literal_text, operator_text, path_text, sign_text,
    step_text, value_text,
};
use crate::text::{digit_char, fraction_text, int_text, nat_text, zeros};
use vstd::prelude::*;

verus! {

/// `suffix` does not go on with a character of `class`.
pub open spec fn stops(suffix: Seq<char>, class: CharClass) -> bool {
    suffix.len() == 0 || !class_holds(suffix[0], class)
}

/// A run over all of `t` from `i` on ends where `t` ends, if what follows stops it.
pub proof fn lemma_run_end_over(t: Seq<char>, suffix: Seq<char>, i: int, class: CharClass)
    requires
        0 <= i <= t.len(),
        forall|j: int| i <= j < t.len() ==> class_holds(#[trigger] t[j], class),
        stops(suffix, class),
    ensures
        run_end(t + suffix, i, class) == t.len(),
    decreases t.len() - i,
{
    if i < t.len() {
        assert((t + suffix)[i] == t[i]);
        lemma_run_end_over(t, suffix, i + 1, class);
    } else {
        if suffix.len() > 0 {
            assert((t + suffix)[i] == suffix[0]);
        }
    }
}

/// The decimal text of a number is made of digits and denotes the number.
pub proof fn lemma_nat_text(n: nat)
    ensures
        nat_text(n).len() >= 1,
        forall|j: int| 0 <= j < nat_text(n).len() ==> is_digit(#[trigger] nat_text(n)[j]),
        digits_value(nat_text(n)) == n,
    decreases n,
{
    if n < 10 {
        assert(nat_text(n) =~= seq![digit_char(n)]);
        assert(nat_text(n).drop_last() =~= Seq::<char>::empty());
        assert(digits_value(nat_text(n).drop_last()) == 0);
        assert(nat_text(n).last() == digit_char(n));
    } else {
        lemma_nat_text(n / 10);
        let front = nat_text(n / 10);
        assert(nat_text(n) == front.push(digit_char(n % 10)));
        assert(nat_text(n).drop_last() =~= front);
        assert(nat_text(n).last() == digit_char(n % 10));
        assert forall|j: int| 0 <= j < nat_text(n).len() implies is_digit(
            #[trigger] nat_text(n)[j],
        ) by {
            if j < front.len() {
                assert(nat_text(n)[j] == front[j]);
            }
        }
    }
}

/// The text of a number that fits, followed by something that is no digit, reads as
/// that number.
pub proof fn lemma_digit_rule_reads(n: nat, suffix: Seq<char>)
    requires
        n <= i32::MAX,
        stops(suffix, CharClass::Digit),
    ensures
        digit_rule(nat_text(n) + suffix) == (Parsed::Found { value: n as i32, rest: suffix }),
{
    let t = nat_text(n);
    lemma_nat_text(n);
    lemma_run_end_over(t, suffix, 0, CharClass::Digit);
    assert((t + suffix).subrange(0, t.len() as int) =~= t);
    assert(after(t + suffix, t.len() as int) =~= suffix);
}

/// Zeros denote nothing, and zeros before digits leave what the digits denote.
pub proof fn lemma_zeros_before(k: nat, t: Seq<char>)
    ensures
        digits_value(zeros(k) + t) == digits_value(t),
    decreases t.len(), k,
{
    let s = zeros(k) + t;
    if t.len() > 0 {
        assert(s.drop_last() =~= zeros(k) + t.drop_last());
        assert(s.last() == t.last());
        lemma_zeros_before(k, t.drop_last());
    } else if k > 0 {
        assert(s.drop_last() =~= zeros((k - 1) as nat) + t);
        assert(s.last() == '0');
        lemma_zeros_before((k - 1) as nat, t);
    } else {
        assert(s =~= t);
    }
}

/// The digits after the point, as they are written, are digits, as many as the count
/// says where it is no less than the digits of the number, and denote the number.
pub proof fn lemma_fraction_text(frac: nat, digits: nat)
    requires
        digits >= nat_text(frac).len(),
    ensures
        fraction_text(frac, digits).len() == digits,
        digits >= 1,
        forall|j: int|
            0 <= j < fraction_text(frac, digits).len() ==> is_digit(
                #[trigger] fraction_text(frac, digits)[j],
            ),
        digits_value(fraction_text(frac, digits)) == frac,
{
    lemma_nat_text(frac);
    let number = nat_text(frac);
    let pad = (digits - number.len()) as nat;
    let t = fraction_text(frac, digits);
    if digits > number.len() {
        lemma_zeros_before(pad, number);
        assert forall|j: int| 0 <= j < t.len() implies is_digit(#[trigger] t[j]) by {
            if j >= pad {
                assert(t[j] == number[j - pad]);
            }
        }
    }
}

/// Digits that denote a number that fits, followed by something that is no digit, read
/// as that number.
pub proof fn lemma_digit_rule_reads_digits(t: Seq<char>, suffix: Seq<char>)
    requires
        t.len() >= 1,
        forall|j: int| 0 <= j < t.len() ==> is_digit(#[trigger] t[j]),
        digits_value(t) <= i32::MAX,
        stops(suffix, CharClass::Digit),
    ensures
        digit_rule(t + suffix) == (Parsed::Found { value: digits_value(t) as i32, rest: suffix }),
        run_end(t + suffix, 0, CharClass::Digit) == t.len(),
{
    lemma_run_end_over(t, suffix, 0, CharClass::Digit);
    assert((t + suffix).subrange(0, t.len() as int) =~= t);
    assert(after(t + suffix, t.len() as int) =~= suffix);
}

/// The number that digits denote has no more digits than they are.
pub proof fn lemma_no_more_digits(t: Seq<char>)
    requires
        t.len() >= 1,
        forall|j: int| 0 <= j < t.len() ==> is_digit(#[trigger] t[j]),
    ensures
        nat_text(digits_value(t)).len() <= t.len(),
    decreases t.len(),
{
    let v = digits_value(t);
    let front = t.drop_last();
    assert(is_digit(t.last()));
    let d = (t.last() as nat - '0' as nat) as nat;
    assert(v == 10 * digits_value(front) + d);
    if v >= 10 {
        assert(t.len() >= 2) by {
            if t.len() == 1 {
                assert(front =~= Seq::<char>::empty());
                assert(digits_value(front) == 0);
            }
        }
        assert(v / 10 == digits_value(front));
        assert forall|j: int| 0 <= j < front.len() implies is_digit(#[trigger] front[j]) by {
            assert(front[j] == t[j]);
        }
        lemma_no_more_digits(front);
        assert(nat_text(v).len() == nat_text(v / 10).len() + 1);
    } else {
        assert(nat_text(v).len() == 1);
    }
}

/// An integer that the parser can give: any `i32` but the least.
pub open spec fn in_range(i: i32) -> bool {
    -i32::MAX <= i <= i32::MAX
}

/// The text of an integer that the parser can give, followed by something that is no
/// digit, reads as that integer.
pub proof fn lemma_int_rule_reads(i: i32, suffix: Seq<char>)
    requires
        in_range(i),
        stops(suffix, CharClass::Digit),
    ensures
        int_rule(int_text(i as int) + suffix) == (Parsed::Found { value: i, rest: suffix }),
        int_text(i as int).len() >= 1,
        int_text(i as int)[0] == '-' || is_digit(int_text(i as int)[0]),
{
    if i < 0 {
        let digits = nat_text((-i) as nat);
        let s = int_text(i as int) + suffix;
        lemma_nat_text((-i) as nat);
        assert(int_text(i as int) == seq!['-'] + digits);
        assert(s[0] == '-');
        assert(after(s, 1) =~= digits + suffix);
        lemma_digit_rule_reads((-i) as nat, suffix);
    } else {
        let digits = nat_text(i as nat);
        let s = digits + suffix;
        lemma_nat_text(i as nat);
        assert(s[0] == digits[0]);
        assert(is_digit(digits[0]));
        lemma_digit_rule_reads(i as nat, suffix);
    }
}


/// What may follow a value: nothing, or a blank.
pub open spec fn ends_value(suffix: Seq<char>) -> bool {
    suffix.len() == 0 || suffix[0] == ' '
}

/// A key: a letter, then letters, digits and `_`.
pub open spec fn is_key(k: Seq<char>) -> bool {
    k.len() > 0 && is_alpha(k[0]) && forall|i: int|
        0 < i < k.len() ==> class_holds(#[trigger] k[i], CharClass::KeyTail)
}

/// A literal that the parser can give: its integers are in range, the two numbers of a
/// float fit an `i32` and the digits after its point are at least as many as the number
/// after it has, and a string holds no quote.
pub open spec fn literal_ok(l: LiteralView) -> bool {
    match l {
        LiteralView::Int(i) => in_range(i),
        LiteralView::Float(f) => f.int_part <= i32::MAX && f.frac_part <= i32::MAX
            && f.frac_digits >= nat_text(f.frac_part).len(),
        LiteralView::String(s) => forall|i: int| 0 <= i < s.len() ==> #[trigger] s[i] != '"',
        LiteralView::Bool(_) => true,
        LiteralView::Null => true,
    }
}

/// The text of a key, followed by something that cannot go on a key, reads as the key.
pub proof fn lemma_key_rule_reads(k: Seq<char>, suffix: Seq<char>)
    requires
        is_key(k),
        stops(suffix, CharClass::KeyTail),
    ensures
        key_rule(k + suffix) == (Parsed::Found { value: k, rest: suffix }),
{
    lemma_run_end_over(k, suffix, 1, CharClass::KeyTail);
    assert((k + suffix)[0] == k[0]);
    assert((k + suffix).subrange(0, k.len() as int) =~= k);
    assert(after(k + suffix, k.len() as int) =~= suffix);
}

/// A text that begins with neither a sign nor a digit is no number.
pub proof fn lemma_no_number(s: Seq<char>)
    requires
        s.len() == 0 || !(s[0] == '-' || s[0] == '+' || is_digit(s[0])),
    ensures
        int_rule(s) is Absent,
        float_rule(s) is Absent,
{
}

/// The text of a literal that the parser can give, followed by the end or a blank,
/// reads as that literal.
pub proof fn lemma_literal_rule_reads(l: LiteralView, suffix: Seq<char>)
    requires
        literal_ok(l),
        ends_value(suffix),
    ensures
        literal_rule(literal_text(l) + suffix) == (Parsed::Found { value: l, rest: suffix }),
{
    let s = literal_text(l) + suffix;
    match l {
        LiteralView::Int(i) => {
            lemma_int_rule_reads(i, suffix);
        },
        LiteralView::Float(f) => {
            let whole = nat_text(f.int_part);
            let fraction = fraction_text(f.frac_part, f.frac_digits);
            let after_int = seq!['.'] + fraction + suffix;
            let after_sign = whole + after_int;
            lemma_nat_text(f.int_part);
            lemma_fraction_text(f.frac_part, f.frac_digits);
            assert(s =~= sign_text(f.negative) + after_sign);
            assert(after_int[0] == '.');
            assert(after_sign[0] == whole[0]);
            assert(is_digit(whole[0]));
            if f.negative {
                assert(s[0] == '-');
                assert(after(s, 1) =~= after_sign);
            } else {
                assert(s =~= after_sign);
            }
            assert(rest_of(sign_rule(s), s) == after_sign);
            lemma_digit_rule_reads(f.int_part, after_int);
            assert(after(after_int, 1) =~= fraction + suffix);
            lemma_digit_rule_reads_digits(fraction, suffix);
        },
        LiteralView::String(t) => {
            let quoted = seq!['"'] + t;
            let closing = seq!['"'] + suffix;
            assert(s =~= quoted + closing);
            assert(s[0] == '"');
            lemma_no_number(s);
            assert forall|j: int| 1 <= j < quoted.len() implies class_holds(
                #[trigger] quoted[j],
                CharClass::NotQuote,
            ) by {
                assert(quoted[j] == t[j - 1]);
            }
            lemma_run_end_over(quoted, closing, 1, CharClass::NotQuote);
            assert(s.subrange(1, quoted.len() as int) =~= t);
            assert(after(s, quoted.len() as int + 1) =~= suffix);
        },
        LiteralView::Bool(b) => {
            reveal_strlit("true");
            reveal_strlit("false");
            if b {
                assert(s[0] == 't');
                assert(s.subrange(0, 4) =~= "true"@);
                assert(after(s, 4) =~= suffix);
            } else {
                assert(s[0] == 'f');
                assert(s.subrange(0, 5) =~= "false"@);
                assert(after(s, 5) =~= suffix);
                if has_prefix(s, "true"@) {
                    assert(s.subrange(0, 4)[0] == 't');
                }
            }
            lemma_no_number(s);
        },
        LiteralView::Null => {
            reveal_strlit("true");
            reveal_strlit("false");
            reveal_strlit("null");
            assert(s[0] == 'n');
            assert(s.subrange(0, 4) =~= "null"@);
            assert(after(s, 4) =~= suffix);
            if has_prefix(s, "true"@) {
                assert(s.subrange(0, 4)[0] == 't');
            }
            if has_prefix(s, "false"@) {
                assert(s.subrange(0, 5)[0] == 'f');
            }
            lemma_no_number(s);
        },
    }
}


/// What a character adds to the number of open brackets.
pub open spec fn bracket_step(c: char) -> int {
    if c == '[' {
        1
    } else if c == ']' {
        -1
    } else {
        0
    }
}

/// The opening brackets less the closing brackets among the first `n` characters.
pub open spec fn net(c: Seq<char>, n: int) -> int
    decreases n,
{
    if n <= 0 || n > c.len() {
        0
    } else {
        net(c, n - 1) + bracket_step(c[n - 1])
    }
}

/// Every bracket of `c` is matched inside `c`: no closing bracket comes before its
/// opening bracket, and none is left open.
pub open spec fn balanced(c: Seq<char>) -> bool {
    net(c, c.len() as int) == 0 && forall|n: int| 0 <= n <= c.len() ==> #[trigger] net(c, n) >= 0
}

/// The search for a closing bracket passes over a balanced stretch.
pub proof fn lemma_close_passes(s: Seq<char>, i: int, depth: nat, c: Seq<char>, k: int)
    requires
        0 <= i,
        i + c.len() <= s.len(),
        s.subrange(i, i + c.len()) == c,
        balanced(c),
        depth >= 1,
        0 <= k <= c.len(),
    ensures
        bracket_close(s, i + k, (depth + net(c, k)) as nat) == bracket_close(
            s,
            i + c.len(),
            depth,
        ),
    decreases c.len() - k,
{
    if k < c.len() {
        assert(s[i + k] == c[k]);
        assert(net(c, k) >= 0);
        assert(net(c, k + 1) >= 0);
        assert(net(c, k + 1) == net(c, k) + bracket_step(c[k]));
        lemma_close_passes(s, i, depth, c, k + 1);
    }
}

/// The net count of a text that continues another.
pub proof fn lemma_net_joined(x: Seq<char>, y: Seq<char>, n: int)
    requires
        0 <= n <= x.len() + y.len(),
    ensures
        net(x + y, n) == if n <= x.len() {
            net(x, n)
        } else {
            net(x, x.len() as int) + net(y, n - x.len())
        },
    decreases n,
{
    if n > 0 {
        lemma_net_joined(x, y, n - 1);
        assert(net(x + y, n) == net(x + y, n - 1) + bracket_step((x + y)[n - 1]));
        if n <= x.len() {
            assert((x + y)[n - 1] == x[n - 1]);
            assert(net(x, n) == net(x, n - 1) + bracket_step(x[n - 1]));
        } else {
            let m = n - x.len();
            assert((x + y)[n - 1] == y[m - 1]);
            assert(net(y, m) == net(y, m - 1) + bracket_step(y[m - 1]));
            assert(net(y, 0) == 0);
        }
    } else {
        assert(net(x + y, 0) == 0);
        assert(net(x, 0) == 0);
    }
}

/// Two balanced texts make a balanced text.
pub proof fn lemma_balanced_joined(x: Seq<char>, y: Seq<char>)
    requires
        balanced(x),
        balanced(y),
    ensures
        balanced(x + y),
{
    lemma_net_joined(x, y, (x + y).len() as int);
    assert forall|n: int| 0 <= n <= (x + y).len() implies #[trigger] net(x + y, n) >= 0 by {
        lemma_net_joined(x, y, n);
        if n > x.len() {
            assert(net(y, n - x.len()) >= 0);
        } else {
            assert(net(x, n) >= 0);
        }
    }
}

/// A text without brackets counts none.
pub proof fn lemma_net_plain(x: Seq<char>, n: int)
    requires
        forall|j: int| 0 <= j < x.len() ==> #[trigger] x[j] != '[' && x[j] != ']',
        0 <= n <= x.len(),
    ensures
        net(x, n) == 0,
    decreases n,
{
    if n > 0 {
        lemma_net_plain(x, n - 1);
    }
}

/// A text without brackets is balanced.
pub proof fn lemma_balanced_plain(x: Seq<char>)
    requires
        forall|j: int| 0 <= j < x.len() ==> #[trigger] x[j] != '[' && x[j] != ']',
    ensures
        balanced(x),
{
    lemma_net_plain(x, x.len() as int);
    assert forall|n: int| 0 <= n <= x.len() implies #[trigger] net(x, n) >= 0 by {
        lemma_net_plain(x, n);
    }
}

/// A balanced text between brackets is balanced.
pub proof fn lemma_balanced_wrapped(c: Seq<char>)
    requires
        balanced(c),
    ensures
        balanced(seq!['['] + c + seq![']']),
{
    let open = seq!['['];
    let close = seq![']'];
    let w = open + c + close;
    assert(net(open, 1) == 1) by {
        assert(net(open, 0) == 0);
    }
    assert(net(close, 1) == -1) by {
        assert(net(close, 0) == 0);
    }
    assert forall|n: int| 0 <= n <= w.len() implies #[trigger] net(w, n) >= 0 && (n == w.len()
        ==> net(w, n) == 0) by {
        lemma_net_joined(open + c, close, n);
        if n <= (open + c).len() {
            lemma_net_joined(open, c, n);
            if n > 1 {
                assert(net(c, n - 1) >= 0);
            } else if n == 0 {
                assert(net(open, 0) == 0);
            }
        } else {
            lemma_net_joined(open, c, (open + c).len() as int);
        }
    }
}

/// A balanced text between brackets, at the front of a text, is the bracket group of
/// that text.
pub proof fn lemma_bracket_rule_reads(c: Seq<char>, suffix: Seq<char>)
    requires
        balanced(c),
    ensures
        bracket_rule(seq!['['] + c + seq![']'] + suffix) == (Parsed::Found {
            value: c,
            rest: suffix,
        }),
{
    let s = seq!['['] + c + seq![']'] + suffix;
    let end: int = c.len() as int + 1;
    assert(s[0] == '[');
    assert(s.subrange(1, end) =~= c);
    assert(net(c, 0) == 0);
    lemma_close_passes(s, 1, 1, c, 0);
    assert(s[end] == ']');
    assert(bracket_close(s, end, 1) == Some(end));
    assert(after(s, end + 1) =~= suffix);
}

/// The text of an integer holds no bracket, and `-` or a digit comes first.
pub proof fn lemma_int_text_plain(i: i32)
    requires
        in_range(i),
    ensures
        forall|j: int|
            0 <= j < int_text(i as int).len() ==> (#[trigger] int_text(i as int)[j]) != '['
                && int_text(i as int)[j] != ']',
{
    if i < 0 {
        lemma_nat_text((-i) as nat);
        let digits = nat_text((-i) as nat);
        assert forall|j: int| 0 <= j < int_text(i as int).len() implies (#[trigger] int_text(
            i as int,
        )[j]) != '[' && int_text(i as int)[j] != ']' by {
            if j > 0 {
                assert(int_text(i as int)[j] == digits[j - 1]);
                assert(is_digit(digits[j - 1]));
            }
        }
    } else {
        lemma_nat_text(i as nat);
        assert forall|j: int| 0 <= j < int_text(i as int).len() implies (#[trigger] int_text(
            i as int,
        )[j]) != '[' && int_text(i as int)[j] != ']' by {
            assert(is_digit(nat_text(i as nat)[j]));
        }
    }
}


/// An accessor that the parser can give: its base is a key, and its path, where it has
/// one, is not empty and made of steps that the parser can give.
pub open spec fn access_ok(a: AccessView) -> bool
    decreases a,
{
    is_key(a.base) && match a.path {
        None => true,
        Some(path) => path.len() > 0 && forall|i: int|
            0 <= i < path.len() ==> step_ok(#[trigger] path[i]),
    }
}

/// A step of a path that the parser can give: a key; an integer in range; or an
/// accessor that the parser can give and that is not one of the literal words alone.
pub open spec fn step_ok(step: AccessPathView) -> bool
    decreases step,
{
    match step {
        AccessPathView::Key(k) => is_key(k),
        AccessPathView::Index(IndexValueView::Int(i)) => in_range(i),
        AccessPathView::Index(IndexValueView::Access(a)) => access_ok(a) && !(a.path is None
            && is_keyword(a.base)),
    }
}

/// Every step of a path is one that the parser can give.
pub open spec fn steps_ok(path: Seq<AccessPathView>) -> bool {
    forall|i: int| 0 <= i < path.len() ==> step_ok(#[trigger] path[i])
}

/// A key holds no bracket.
pub proof fn lemma_key_plain(k: Seq<char>)
    requires
        is_key(k),
    ensures
        forall|j: int| 0 <= j < k.len() ==> #[trigger] k[j] != '[' && k[j] != ']',
        balanced(k),
{
    assert forall|j: int| 0 <= j < k.len() implies #[trigger] k[j] != '[' && k[j] != ']' by {
        if j > 0 {
            assert(class_holds(k[j], CharClass::KeyTail));
        }
    }
    lemma_balanced_plain(k);
}

/// The text of an accessor is balanced and begins with a letter.
pub proof fn lemma_access_shape(a: AccessView)
    requires
        access_ok(a),
    ensures
        balanced(access_text(a)),
        access_text(a).len() >= a.base.len(),
        access_text(a).subrange(0, a.base.len() as int) == a.base,
        is_alpha(access_text(a)[0]),
        a.path is Some ==> access_text(a).len() > a.base.len() && (access_text(
            a,
        )[a.base.len() as int] == '.' || access_text(a)[a.base.len() as int] == '['),
    decreases a, 0nat,
{
    lemma_key_plain(a.base);
    match a.path {
        None => {
            assert(access_text(a).subrange(0, a.base.len() as int) =~= a.base);
        },
        Some(path) => {
            lemma_path_shape(path, 0);
            lemma_balanced_joined(a.base, path_text(path, 0));
            assert(access_text(a) == a.base + path_text(path, 0));
            assert(access_text(a).subrange(0, a.base.len() as int) =~= a.base);
            assert(access_text(a)[0] == a.base[0]);
            assert(access_text(a)[a.base.len() as int] == path_text(path, 0)[0]);
        },
    }
}

/// The text of the steps of a path from `i` on is balanced, and begins with `.` or `[`
/// where there is a step.
pub proof fn lemma_path_shape(path: Seq<AccessPathView>, i: int)
    requires
        steps_ok(path),
        0 <= i <= path.len(),
    ensures
        balanced(path_text(path, i)),
        i < path.len() ==> path_text(path, i).len() >= 1 && (path_text(path, i)[0] == '.'
            || path_text(path, i)[0] == '['),
    decreases path, path.len() - i,
{
    if i < path.len() {
        lemma_step_shape(path[i]);
        lemma_path_shape(path, i + 1);
        lemma_balanced_joined(step_text(path[i]), path_text(path, i + 1));
        assert(path_text(path, i)[0] == step_text(path[i])[0]);
    } else {
        lemma_balanced_plain(path_text(path, i));
    }
}

/// The text of a step is balanced and begins with `.` or `[`.
pub proof fn lemma_step_shape(step: AccessPathView)
    requires
        step_ok(step),
    ensures
        balanced(step_text(step)),
        step_text(step).len() >= 1,
        step_text(step)[0] == '.' || step_text(step)[0] == '[',
    decreases step, 0nat,
{
    match step {
        AccessPathView::Key(k) => {
            lemma_key_plain(k);
            assert forall|j: int| 0 <= j < step_text(step).len() implies (#[trigger] step_text(
                step,
            )[j]) != '[' && step_text(step)[j] != ']' by {
                if j > 0 {
                    assert(step_text(step)[j] == k[j - 1]);
                }
            }
            lemma_balanced_plain(step_text(step));
        },
        AccessPathView::Index(IndexValueView::Int(i)) => {
            lemma_int_text_plain(i);
            lemma_balanced_plain(int_text(i as int));
            lemma_balanced_wrapped(int_text(i as int));
        },
        AccessPathView::Index(IndexValueView::Access(a)) => {
            lemma_access_shape(a);
            lemma_balanced_wrapped(access_text(a));
        },
    }
}

/// The text of an accessor that is not a literal word alone is no literal word.
pub proof fn lemma_not_keyword(a: AccessView)
    requires
        access_ok(a),
        !(a.path is None && is_keyword(a.base)),
    ensures
        !is_keyword(access_text(a)),
{
    reveal_strlit("true");
    reveal_strlit("false");
    reveal_strlit("null");
    lemma_access_shape(a);
    if a.path is Some {
        let t = access_text(a);
        let at = a.base.len() as int;
        assert(t[at] == '.' || t[at] == '[');
        if t == "true"@ {
            assert("true"@[at] == t[at]);
        }
        if t == "false"@ {
            assert("false"@[at] == t[at]);
        }
        if t == "null"@ {
            assert("null"@[at] == t[at]);
        }
    }
}


/// The text of an accessor that the parser can give, followed by the end or a blank,
/// reads as that accessor.
pub proof fn lemma_access_rule_reads(a: AccessView, suffix: Seq<char>)
    requires
        access_ok(a),
        ends_value(suffix),
    ensures
        access_rule(access_text(a) + suffix) == (Parsed::Found { value: a, rest: suffix }),
    decreases a, 0nat,
{
    let s = access_text(a) + suffix;
    match a.path {
        None => {
            lemma_key_rule_reads(a.base, suffix);
            assert(bracket_rule(suffix) is Absent);
            assert(dot_rule(suffix) is Absent);
            assert(path_rule(suffix) == (Parsed::Found {
                value: Seq::<AccessPathView>::empty(),
                rest: suffix,
            }));
        },
        Some(path) => {
            let tail = path_text(path, 0) + suffix;
            lemma_path_shape(path, 0);
            assert(s =~= a.base + tail);
            assert(tail[0] == path_text(path, 0)[0]);
            lemma_key_rule_reads(a.base, tail);
            lemma_path_rule_reads(path, 0, suffix);
            assert(path.subrange(0, path.len() as int) =~= path);
        },
    }
}

/// The text of the steps of a path from `i` on, followed by the end or a blank, reads as
/// those steps.
pub proof fn lemma_path_rule_reads(path: Seq<AccessPathView>, i: int, suffix: Seq<char>)
    requires
        steps_ok(path),
        0 <= i <= path.len(),
        ends_value(suffix),
    ensures
        path_rule(path_text(path, i) + suffix) == (Parsed::Found {
            value: path.subrange(i, path.len() as int),
            rest: suffix,
        }),
    decreases path, path.len() - i,
{
    let s = path_text(path, i) + suffix;
    if i >= path.len() {
        assert(s =~= suffix);
        assert(bracket_rule(suffix) is Absent);
        assert(dot_rule(suffix) is Absent);
        assert(path.subrange(i, path.len() as int) =~= Seq::<AccessPathView>::empty());
        assert(path_rule(s) == (Parsed::Found {
            value: path.subrange(i, path.len() as int),
            rest: suffix,
        }));
    } else {
        let step = path[i];
        let tail = path_text(path, i + 1) + suffix;
        lemma_path_rule_reads(path, i + 1, suffix);
        lemma_path_shape(path, i + 1);
        lemma_step_shape(step);
        assert(s =~= step_text(step) + tail);
        assert(seq![step] + path.subrange(i + 1, path.len() as int) =~= path.subrange(
            i,
            path.len() as int,
        ));
        if i + 1 < path.len() {
            assert(tail[0] == path_text(path, i + 1)[0]);
        } else {
            assert(tail =~= suffix);
        }
        match step {
            AccessPathView::Key(k) => {
                assert(s =~= seq!['.'] + (k + tail));
                assert(s[0] == '.');
                assert(bracket_rule(s) is Absent);
                assert(after(s, 1) =~= k + tail);
                lemma_key_rule_reads(k, tail);
                assert(dot_rule(s) == (Parsed::Found { value: '.', rest: k + tail }));
                assert(path_rule(s) == with_prefix(
                    seq![AccessPathView::Key(k)],
                    path_rule(tail),
                ));
                assert(path_rule(s) == (Parsed::Found {
                    value: path.subrange(i, path.len() as int),
                    rest: suffix,
                }));
            },
            AccessPathView::Index(IndexValueView::Int(v)) => {
                let content = int_text(v as int);
                lemma_int_text_plain(v);
                lemma_balanced_plain(content);
                assert(s =~= seq!['['] + content + seq![']'] + tail);
                lemma_bracket_rule_reads(content, tail);
                lemma_int_rule_reads(v, Seq::empty());
                assert(content + Seq::<char>::empty() =~= content);
                assert(index_value_rule(content) == (Parsed::Found {
                    value: IndexValueView::Int(v),
                    rest: Seq::<char>::empty(),
                }));
                assert(path_rule(s) == with_prefix(seq![step], path_rule(tail)));
                assert(path_rule(s) == (Parsed::Found {
                    value: path.subrange(i, path.len() as int),
                    rest: suffix,
                }));
            },
            AccessPathView::Index(IndexValueView::Access(inner)) => {
                let content = access_text(inner);
                lemma_access_shape(inner);
                assert(s =~= seq!['['] + content + seq![']'] + tail);
                lemma_bracket_rule_reads(content, tail);
                lemma_no_number(content);
                lemma_not_keyword(inner);
                lemma_access_rule_reads(inner, Seq::empty());
                assert(content + Seq::<char>::empty() =~= content);
                assert(index_value_rule(content) == (Parsed::Found {
                    value: IndexValueView::Access(inner),
                    rest: Seq::<char>::empty(),
                }));
                assert(path_rule(s) == with_prefix(seq![step], path_rule(tail)));
                assert(path_rule(s) == (Parsed::Found {
                    value: path.subrange(i, path.len() as int),
                    rest: suffix,
                }));
            },
        }
    }
}


/// The text begins with one of the literal words.
pub open spec fn literal_prefixed(base: Seq<char>) -> bool {
    has_prefix(base, "true"@) || has_prefix(base, "false"@) || has_prefix(base, "null"@)
}

/// A value that the parser can give where a condition has a value: a literal that it
/// can give, or an accessor that it can give and that does not begin with a literal
/// word, which would be read as the literal.
pub open spec fn value_ok(v: ValueView) -> bool {
    match v {
        ValueView::Literal(l) => literal_ok(l),
        ValueView::Access(a) => access_ok(a) && !literal_prefixed(a.base),
    }
}

/// The text of a value is not empty and does not begin with a blank.
pub proof fn lemma_value_text_begins(v: ValueView)
    requires
        value_ok(v),
    ensures
        value_text(v).len() >= 1,
        !class_holds(value_text(v)[0], CharClass::Space),
        value_text(v)[0] != '[',
{
    reveal_strlit("true");
    reveal_strlit("false");
    reveal_strlit("null");
    match v {
        ValueView::Literal(LiteralView::Int(i)) => {
            lemma_int_rule_reads(i, Seq::empty());
        },
        ValueView::Literal(LiteralView::Float(f)) => {
            lemma_nat_text(f.int_part);
            assert(is_digit(nat_text(f.int_part)[0]));
            if f.negative {
                assert(value_text(v)[0] == '-');
            } else {
                assert(value_text(v)[0] == nat_text(f.int_part)[0]);
            }
        },
        ValueView::Literal(LiteralView::String(t)) => {
            assert(value_text(v)[0] == '"');
        },
        ValueView::Literal(_) => {},
        ValueView::Access(a) => {
            lemma_access_shape(a);
        },
    }
}

/// An accessor that does not begin with a literal word is not read as a literal.
pub proof fn lemma_access_is_no_literal(a: AccessView, suffix: Seq<char>)
    requires
        access_ok(a),
        !literal_prefixed(a.base),
        ends_value(suffix),
    ensures
        literal_rule(access_text(a) + suffix) is Absent,
{
    reveal_strlit("true");
    reveal_strlit("false");
    reveal_strlit("null");
    let t = access_text(a);
    let s = t + suffix;
    let n = a.base.len() as int;
    lemma_access_shape(a);
    assert(s[0] == t[0]);
    lemma_no_number(s);
    assert(forall|j: int| 0 <= j < t.len() ==> s[j] == t[j]);
    assert(forall|j: int| 0 <= j < n ==> a.base[j] == t.subrange(0, n)[j]);
    if n < s.len() {
        if a.path is Some {
            assert(s[n] == t[n]);
        } else {
            assert(t =~= a.base);
            assert(s[n] == suffix[0]);
        }
        assert(s[n] == '.' || s[n] == '[' || s[n] == ' ');
    }
    if has_prefix(s, "true"@) {
        let w = "true"@;
        assert(forall|j: int| 0 <= j < 4 ==> s[j] == s.subrange(0, 4)[j]);
        if n >= 4 {
            assert(a.base.subrange(0, 4) =~= w);
        } else {
            assert(s[n] == w[n]);
        }
    }
    if has_prefix(s, "false"@) {
        let w = "false"@;
        assert(forall|j: int| 0 <= j < 5 ==> s[j] == s.subrange(0, 5)[j]);
        if n >= 5 {
            assert(a.base.subrange(0, 5) =~= w);
        } else {
            assert(s[n] == w[n]);
        }
    }
    if has_prefix(s, "null"@) {
        let w = "null"@;
        assert(forall|j: int| 0 <= j < 4 ==> s[j] == s.subrange(0, 4)[j]);
        if n >= 4 {
            assert(a.base.subrange(0, 4) =~= w);
        } else {
            assert(s[n] == w[n]);
        }
    }
}

/// The text of a value that the parser can give, followed by the end or a blank, reads
/// as that value.
pub proof fn lemma_value_rule_reads(v: ValueView, suffix: Seq<char>)
    requires
        value_ok(v),
        ends_value(suffix),
    ensures
        value_rule(value_text(v) + suffix) == (Parsed::Found { value: v, rest: suffix }),
{
    match v {
        ValueView::Literal(l) => {
            lemma_literal_rule_reads(l, suffix);
        },
        ValueView::Access(a) => {
            lemma_access_is_no_literal(a, suffix);
            lemma_access_rule_reads(a, suffix);
        },
    }
}

/// The text of an operator, followed by the end or a blank, reads as that operator.
pub proof fn lemma_operator_rule_reads(op: Operator, suffix: Seq<char>)
    requires
        ends_value(suffix),
    ensures
        operator_rule(operator_text(op) + suffix) == (Parsed::Found { value: op, rest: suffix }),
        operator_text(op).len() >= 1,
        !class_holds(operator_text(op)[0], CharClass::Space),
{
    reveal_strlit("==");
    reveal_strlit("!=");
    reveal_strlit("<=");
    reveal_strlit(">=");
    reveal_strlit("<");
    reveal_strlit(">");
    reveal_strlit("in");
    let t = operator_text(op);
    let s = t + suffix;
    assert(s.subrange(0, t.len() as int) =~= t);
    assert(after(s, t.len() as int) =~= suffix);
    assert(forall|j: int| 0 <= j < t.len() ==> s[j] == t[j]);
    if suffix.len() > 0 {
        assert(s[t.len() as int] == ' ');
    }
    assert(forall|w: Seq<char>|
        #![trigger has_prefix(s, w)]
        has_prefix(s, w) ==> forall|j: int| 0 <= j < w.len() ==> s[j] == s.subrange(
            0,
            w.len() as int,
        )[j]);
    if op != Operator::Equal {
        assert(!has_prefix(s, "=="@)) by {
            if has_prefix(s, "=="@) {
                assert(s[0] == "=="@[0]);
            }
        }
    }
    if op != Operator::NotEqual {
        assert(!has_prefix(s, "!="@)) by {
            if has_prefix(s, "!="@) {
                assert(s[0] == "!="@[0]);
            }
        }
    }
    if op != Operator::LessThanEqual {
        assert(!has_prefix(s, "<="@)) by {
            if has_prefix(s, "<="@) {
                assert(s[0] == "<="@[0]);
                assert(s[1] == "<="@[1]);
            }
        }
    }
    if op != Operator::GreaterThanEqual {
        assert(!has_prefix(s, ">="@)) by {
            if has_prefix(s, ">="@) {
                assert(s[0] == ">="@[0]);
                assert(s[1] == ">="@[1]);
            }
        }
    }
    if op != Operator::LessThan && op != Operator::LessThanEqual {
        assert(!has_prefix(s, "<"@)) by {
            if has_prefix(s, "<"@) {
                assert(s[0] == "<"@[0]);
            }
        }
    }
    if op != Operator::GreaterThan && op != Operator::GreaterThanEqual {
        assert(!has_prefix(s, ">"@)) by {
            if has_prefix(s, ">"@) {
                assert(s[0] == ">"@[0]);
            }
        }
    }
}

/// One blank followed by something that is no blank is the whole run of blanks.
pub proof fn lemma_one_blank(tail: Seq<char>)
    requires
        stops(tail, CharClass::Space),
    ensures
        whitespace_rule(seq![' '] + tail) == (Parsed::Found { value: seq![' '], rest: tail }),
{
    let blank = seq![' '];
    lemma_run_end_over(blank, tail, 0, CharClass::Space);
    assert((blank + tail).subrange(0, 1) =~= blank);
    assert(after(blank + tail, 1) =~= tail);
}

/// The text of a chain word reads as that word, with nothing left.
pub proof fn lemma_chain_rule_reads(chain: Chain)
    ensures
        chain_text(Some(chain)).len() >= 2,
        chain_text(Some(chain))[0] == ' ',
        !class_holds(chain_text(Some(chain))[1], CharClass::Space),
        chain_rule(after(chain_text(Some(chain)), 1)) == (Parsed::Found {
            value: chain,
            rest: Seq::<char>::empty(),
        }),
{
    reveal_strlit("and");
    reveal_strlit("or");
    let t = chain_text(Some(chain));
    let word = after(t, 1);
    match chain {
        Chain::And => {
            assert(word =~= "and"@);
            assert(word.subrange(0, 3) =~= "and"@);
            assert(after(word, 3) =~= Seq::<char>::empty());
        },
        Chain::Or => {
            assert(word =~= "or"@);
            assert(word.subrange(0, 2) =~= "or"@);
            assert(after(word, 2) =~= Seq::<char>::empty());
            assert(!has_prefix(word, "and"@));
        },
    }
}

/// The text of a condition whose values the parser can give reads as that condition.
pub proof fn lemma_condition_rule_reads(c: ConditionView)
    requires
        value_ok(c.left),
        value_ok(c.right),
    ensures
        condition_rule(condition_text(c)) == Ok::<ConditionView, ParseConditionErrorView>(c),
{
    let blank = seq![' '];
    let s = condition_text(c);
    let chain = chain_text(c.chain);
    let from_right = value_text(c.right) + chain;
    let after_op = blank + from_right;
    let from_op = operator_text(c.op) + after_op;
    let after_left_value = blank + from_op;
    assert(s =~= value_text(c.left) + after_left_value);
    lemma_value_text_begins(c.left);
    lemma_value_text_begins(c.right);
    assert(s[0] == value_text(c.left)[0]);
    assert(run_end(s, 0, CharClass::Space) == 0);
    assert(whitespace_rule(s) is Absent);
    assert(after_left_value[0] == ' ');
    lemma_value_rule_reads(c.left, after_left_value);
    lemma_operator_rule_reads(c.op, after_op);
    assert(from_op[0] == operator_text(c.op)[0]);
    lemma_one_blank(from_op);
    assert(after_op[0] == ' ');
    assert(from_right[0] == value_text(c.right)[0]);
    lemma_one_blank(from_right);
    match c.chain {
        None => {
            assert(chain =~= Seq::<char>::empty());
            lemma_value_rule_reads(c.right, chain);
            assert(after_operator(c.left, c.op, after_op) == Ok::<
                ConditionView,
                ParseConditionErrorView,
            >(c));
        },
        Some(word) => {
            lemma_chain_rule_reads(word);
            lemma_value_rule_reads(c.right, chain);
            assert(chain =~= blank + after(chain, 1));
            assert(after(chain, 1)[0] == chain[1]);
            lemma_one_blank(after(chain, 1));
            assert(after_right(c.left, c.op, c.right, chain) == Ok::<
                ConditionView,
                ParseConditionErrorView,
            >(c));
            assert(after_operator(c.left, c.op, after_op) == Ok::<
                ConditionView,
                ParseConditionErrorView,
            >(c));
        },
    }
    assert(after_left(c.left, after_left_value) == Ok::<ConditionView, ParseConditionErrorView>(c));
}


/// The numbers that the rules give are in range, and a float has at least as many
/// digits after its point as the number after it has.
pub proof fn lemma_numbers_in_range(s: Seq<char>)
    ensures
        digit_rule(s) is Found ==> 0 <= digit_rule(s)->value,
        int_rule(s) is Found ==> in_range(int_rule(s)->value),
        float_rule(s) is Found ==> literal_ok(LiteralView::Float(float_rule(s)->value)),
{
    let after_sign = rest_of(sign_rule(s), s);
    if digit_rule(after_sign) is Found {
        assert(0 <= digit_rule(after_sign)->value);
        let after_int = digit_rule(after_sign)->rest;
        if dot_rule(after_int) is Found {
            let after_dot = dot_rule(after_int)->rest;
            if digit_rule(after_dot) is Found {
                let n = run_end(after_dot, 0, CharClass::Digit);
                let run = after_dot.subrange(0, n);
                lemma_run_end_bounds(after_dot, 0, CharClass::Digit);
                assert forall|j: int| 0 <= j < run.len() implies is_digit(#[trigger] run[j]) by {
                    assert(run[j] == after_dot[j]);
                }
                lemma_no_more_digits(run);
                assert(0 <= digit_rule(after_dot)->value);
            }
        }
    }
}

/// The key that the rule gives is a key.
pub proof fn lemma_key_rule_gives(s: Seq<char>)
    requires
        key_rule(s) is Found,
    ensures
        is_key(key_rule(s)->value),
        key_rule(s)->value.len() + key_rule(s)->rest.len() == s.len(),
        key_rule(s)->value + key_rule(s)->rest == s,
{
    lemma_run_end_bounds(s, 1, CharClass::KeyTail);
    let n = run_end(s, 1, CharClass::KeyTail);
    let k = s.subrange(0, n);
    assert(k[0] == s[0]);
    assert forall|i: int| 0 < i < k.len() implies class_holds(
        #[trigger] k[i],
        CharClass::KeyTail,
    ) by {
        assert(k[i] == s[i]);
    }
    assert(k + after(s, n) =~= s);
}

/// The literal that the rule gives is one that the parser can give.
pub proof fn lemma_literal_rule_gives(s: Seq<char>)
    requires
        literal_rule(s) is Found,
    ensures
        literal_ok(literal_rule(s)->value),
{
    lemma_numbers_in_range(s);
    if float_rule(s) is Absent && int_rule(s) is Absent && string_rule(s) is Found {
        lemma_run_end_bounds(s, 1, CharClass::NotQuote);
        let n = run_end(s, 1, CharClass::NotQuote);
        let t = s.subrange(1, n);
        assert forall|i: int| 0 <= i < t.len() implies #[trigger] t[i] != '"' by {
            assert(t[i] == s[i + 1]);
            assert(class_holds(s[i + 1], CharClass::NotQuote));
        }
    }
}

/// The accessor that the rule gives is one that the parser can give.
pub proof fn lemma_access_rule_gives(s: Seq<char>)
    requires
        access_rule(s) is Found,
    ensures
        access_ok(access_rule(s)->value),
        access_rule(s)->value.path is None ==> access_rule(s)->value.base + access_rule(s)->rest
            == s,
        access_rule(s)->value.base == key_rule(s)->value,
    decreases s.len(), 0nat,
{
    lemma_key_rule_gives(s);
    let after_key = key_rule(s)->rest;
    lemma_path_rule_gives(after_key);
}

/// The steps that the rule gives are steps that the parser can give; where it gives
/// none, it leaves the text as it is.
pub proof fn lemma_path_rule_gives(s: Seq<char>)
    requires
        path_rule(s) is Found,
    ensures
        steps_ok(path_rule(s)->value),
        path_rule(s)->value.len() == 0 ==> path_rule(s)->rest == s,
    decreases s.len(), 0nat,
{
    match bracket_rule(s) {
        Parsed::Failed(_) => {},
        Parsed::Found { value: content, rest } => {
            lemma_bracket_close_bounds(s, 1, 1);
            lemma_index_value_rule_gives(content);
            let step = AccessPathView::Index(index_value_rule(content)->value);
            lemma_path_rule_gives(rest);
            let later = path_rule(rest)->value;
            let all = seq![step] + later;
            assert(path_rule(s)->value == all);
            assert forall|i: int| 0 <= i < all.len() implies step_ok(#[trigger] all[i]) by {
                if i > 0 {
                    assert(all[i] == later[i - 1]);
                }
            }
        },
        Parsed::Absent => {
            if dot_rule(s) is Found {
                let after_dot = dot_rule(s)->rest;
                lemma_key_rule_gives(after_dot);
                let step = AccessPathView::Key(key_rule(after_dot)->value);
                let rest = key_rule(after_dot)->rest;
                lemma_path_rule_gives(rest);
                let later = path_rule(rest)->value;
                let all = seq![step] + later;
                assert(path_rule(s)->value == all);
                assert forall|i: int| 0 <= i < all.len() implies step_ok(#[trigger] all[i]) by {
                    if i > 0 {
                        assert(all[i] == later[i - 1]);
                    }
                }
            }
        },
    }
}

/// What the rule finds between brackets is a step that the parser can give.
pub proof fn lemma_index_value_rule_gives(c: Seq<char>)
    requires
        index_value_rule(c) is Found,
    ensures
        step_ok(AccessPathView::Index(index_value_rule(c)->value)),
    decreases c.len(), 1nat,
{
    lemma_numbers_in_range(c);
    if index_value_rule(c)->value is Access {
        lemma_access_rule_gives(c);
        let a = access_rule(c)->value;
        assert(index_value_rule(c)->value == IndexValueView::Access(a));
        assert(access_rule(c)->rest.len() == 0);
        assert(!is_keyword(c));
        if a.path is None {
            assert(a.base + access_rule(c)->rest =~= a.base);
        }
    }
}

/// The value that the rule gives is one that the parser can give.
pub proof fn lemma_value_rule_gives(s: Seq<char>)
    requires
        value_rule(s) is Found,
    ensures
        value_ok(value_rule(s)->value),
{
    if literal_rule(s) is Found {
        lemma_literal_rule_gives(s);
    } else {
        lemma_access_rule_gives(s);
        lemma_key_rule_gives(s);
        let base = key_rule(s)->value;
        assert(bool_rule(s) is Absent);
        assert(null_rule(s) is Absent);
        assert forall|w: Seq<char>| has_prefix(base, w) implies #[trigger] has_prefix(s, w) by {
            assert(s.subrange(0, w.len() as int) =~= base.subrange(0, w.len() as int));
        }
    }
}

/// The values of a condition that the rule gives are values that the parser can give.
pub proof fn lemma_condition_rule_gives(s: Seq<char>)
    requires
        condition_rule(s) is Ok,
    ensures
        value_ok(condition_rule(s)->Ok_0.left),
        value_ok(condition_rule(s)->Ok_0.right),
{
    let start = rest_of(whitespace_rule(s), s);
    lemma_value_rule_gives(start);
    let left = value_rule(start)->value;
    let r1 = value_rule(start)->rest;
    let s2 = rest_of(whitespace_rule(r1), r1);
    let op = operator_rule(s2)->value;
    let r3 = operator_rule(s2)->rest;
    let s4 = rest_of(whitespace_rule(r3), r3);
    assert(condition_rule(s) == after_left(left, r1));
    assert(after_left(left, r1) == after_operator(left, op, r3));
    lemma_value_rule_gives(s4);
}

/// Every condition that the parser accepts has a text that the parser reads as that
/// very condition.
pub proof fn parsed_conditions_parse_back(s: Seq<char>)
    requires
        condition_rule(s) is Ok,
    ensures
        condition_rule(condition_text(condition_rule(s)->Ok_0)) == condition_rule(s),
{
    lemma_condition_rule_gives(s);
    lemma_condition_rule_reads(condition_rule(s)->Ok_0);
}


/// Every argument that the parser accepts has a text that the parser reads as that very
/// argument.
pub proof fn parsed_arguments_parse_back(s: Seq<char>)
    requires
        argument_rule(s) is Ok,
    ensures
        argument_rule(access_text(argument_rule(s)->Ok_0)) == argument_rule(s),
{
    let start = rest_of(whitespace_rule(s), s);
    lemma_access_rule_gives(start);
    let a = argument_rule(s)->Ok_0;
    let t = access_text(a);
    lemma_access_shape(a);
    lemma_access_rule_reads(a, Seq::empty());
    assert(t + Seq::<char>::empty() =~= t);
    assert(run_end(t, 0, CharClass::Space) == 0);
    assert(whitespace_rule(t) is Absent);
    assert(whitespace_rule(Seq::<char>::empty()) is Absent);
}

} // verus!
