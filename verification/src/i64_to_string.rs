use vstd::prelude::*;
use vstd::string::StringExecFns;

use crate::ids::{NodeId, PluginId, SocketId};
use crate::node_controller::{GraphNode, InputSocket, OutputSocket};
use crate::node::NodeFn;
use crate::plugin::Plugin;
use crate::FrameCount;

verus! {

/// Type tag of sockets that carry an `i64`.
pub const TYPE_I64: u64 = 1;

/// Type tag of sockets that carry a `String`.
pub const TYPE_STRING: u64 = 2;

/// The character of a decimal digit.
pub open spec fn digit_char(d: nat) -> char {
    if d == 0 { '0' }
    else if d == 1 { '1' }
    else if d == 2 { '2' }
    else if d == 3 { '3' }
    else if d == 4 { '4' }
    else if d == 5 { '5' }
    else if d == 6 { '6' }
    else if d == 7 { '7' }
    else if d == 8 { '8' }
    else { '9' }
}

/// The decimal digits of `n`, most significant first, without leading zeros.
pub open spec fn decimal_digits(n: nat) -> Seq<char>
    decreases n,
{
    if n < 10 {
        seq![digit_char(n)]
    } else {
        decimal_digits(n / 10).push(digit_char(n % 10))
    }
}

/// The decimal text of `x`: a minus sign for negative numbers, then the
/// digits of its magnitude.
pub open spec fn decimal_text(x: int) -> Seq<char> {
    if x < 0 {
        seq!['-'] + decimal_digits((-x) as nat)
    } else {
        decimal_digits(x as nat)
    }
}

/// The number a character stands for as a decimal digit, and -1 for any
/// other character.
pub open spec fn digit_value(c: char) -> int {
    if '0' <= c && c <= '9' {
        (c as int) - ('0' as int)
    } else {
        -1
    }
}

/// The number that a sequence of digits stands for, read left to right.
pub open spec fn digits_value(s: Seq<char>) -> int
    decreases s.len(),
{
    if s.len() == 0 {
        0
    } else {
        digits_value(s.drop_last()) * 10 + digit_value(s.last())
    }
}

/// The number that a decimal text stands for: an optional minus sign, then
/// digits.
pub open spec fn text_value(s: Seq<char>) -> int {
    if s.len() > 0 && s[0] == '-' {
        -digits_value(s.drop_first())
    } else {
        digits_value(s)
    }
}

/// The character of a digit stands for that digit.
proof fn lemma_digit_char_value(d: nat)
    requires
        d < 10,
    ensures
        digit_value(digit_char(d)) == d,
        '0' <= digit_char(d) <= '9',
{
    assert(('0' as int) == 48);
    assert(('1' as int) == 49);
    assert(('2' as int) == 50);
    assert(('3' as int) == 51);
    assert(('4' as int) == 52);
    assert(('5' as int) == 53);
    assert(('6' as int) == 54);
    assert(('7' as int) == 55);
    assert(('8' as int) == 56);
    assert(('9' as int) == 57);
}

/// The digits of `n` are digits, and read back as `n`.
proof fn lemma_digits_read_back(n: nat)
    ensures
        digits_value(decimal_digits(n)) == n,
        decimal_digits(n).len() > 0,
        forall|i: int| 0 <= i < decimal_digits(n).len() ==> '0' <= #[trigger] decimal_digits(n)[i] <= '9',
    decreases n,
{
    lemma_digit_char_value(n % 10);
    if n < 10 {
        assert(seq![digit_char(n)].drop_last() =~= Seq::<char>::empty());
        assert(digits_value(Seq::<char>::empty()) == 0);
        assert(digits_value(seq![digit_char(n)]) == digit_value(digit_char(n)));
        assert(n % 10 == n);
    } else {
        lemma_digits_read_back(n / 10);
        let d = decimal_digits(n / 10);
        assert(decimal_digits(n) == d.push(digit_char(n % 10)));
        assert(d.push(digit_char(n % 10)).drop_last() =~= d);
        assert(n == (n / 10) * 10 + n % 10);
        assert(digits_value(d.push(digit_char(n % 10))) == digits_value(d) * 10 + digit_value(
            digit_char(n % 10),
        ));
    }
}

/// The text of a number reads back as the number, and the text of a number
/// that is not negative holds no minus sign: it is the digits alone.
pub proof fn law_text_reads_back(x: int)
    ensures
        text_value(decimal_text(x)) == x,
        x >= 0 ==> !decimal_text(x).contains('-'),
        x >= 0 ==> decimal_text(x) == decimal_digits(x as nat),
        x < 0 ==> decimal_text(x)[0] == '-',
{
    if x < 0 {
        lemma_digits_read_back((-x) as nat);
        assert((seq!['-'] + decimal_digits((-x) as nat)).drop_first() =~= decimal_digits((-x) as nat));
    } else {
        lemma_digits_read_back(x as nat);
        assert(decimal_digits(x as nat)[0] != '-');
        if decimal_text(x).contains('-') {
            let i = choose|i: int| 0 <= i < decimal_text(x).len() && decimal_text(x)[i] == '-';
            assert('0' <= decimal_digits(x as nat)[i] <= '9');
        }
    }
}

/// The text of one decimal digit.
fn digit_str(d: u64) -> (r: &'static str)
    requires
        d < 10,
    ensures
        r@ == seq![digit_char(d as nat)],
{
    proof {
        reveal_strlit("0");
        reveal_strlit("1");
        reveal_strlit("2");
        reveal_strlit("3");
        reveal_strlit("4");
        reveal_strlit("5");
        reveal_strlit("6");
        reveal_strlit("7");
        reveal_strlit("8");
        reveal_strlit("9");
    }
    if d == 0 { "0" }
    else if d == 1 { "1" }
    else if d == 2 { "2" }
    else if d == 3 { "3" }
    else if d == 4 { "4" }
    else if d == 5 { "5" }
    else if d == 6 { "6" }
    else if d == 7 { "7" }
    else if d == 8 { "8" }
    else { "9" }
}

/// Append the decimal digits of `n` to `s`.
fn push_digits(s: &mut String, n: u64)
    ensures
        final(s)@ == old(s)@ + decimal_digits(n as nat),
    decreases n,
{
    if n < 10 {
        s.append(digit_str(n));
    } else {
        push_digits(s, n / 10);
        s.append(digit_str(n % 10));
        assert(decimal_digits(n as nat) == decimal_digits((n / 10) as nat).push(digit_char((n % 10) as nat)));
        assert(old(s)@ + decimal_digits(n as nat) =~= old(s)@ + decimal_digits((n / 10) as nat) + seq![digit_char((n % 10) as nat)]);
    }
}

/// The decimal text of an `i64`: a minus sign for a negative number, then
/// the digits of its magnitude, as `i64::to_string` writes it.
fn i64_text(x: i64) -> (r: String)
    ensures
        r@ == decimal_text(x as int),
{
    let mut s = String::new();
    if x < 0 {
        proof {
            reveal_strlit("-");
        }
        s.append("-");
        let m: u64 = (-(x + 1)) as u64 + 1;
        push_digits(&mut s, m);
    } else {
        push_digits(&mut s, x as u64);
    }
    assert(s@ =~= decimal_text(x as int));
    s
}

/// The node kind that turns an `i64` into its decimal text.
pub struct I64ToString;

impl I64ToString {
    /// The work of the node: the text of its input.
    pub fn process(input: i64) -> (r: String)
        ensures
            r@ == decimal_text(input as int),
    {
        i64_text(input)
    }

    /// The value its input reads while nothing is connected to it: the
    /// default value.
    pub fn read(default: Option<&i64>) -> (r: i64)
        requires
            default is Some,
        ensures
            r == *default->0,
    {
        *default.unwrap()
    }

    /// What its output socket picks from the result of the node: all of it.
    pub fn pickup(s: &String) -> (r: String)
        ensures
            r@ == s@,
    {
        s.clone()
    }
}

/// The main process of the node: the text of the value its input reads.
impl NodeFn<i64, (), String> for I64ToString {
    /// The output is the decimal text of the input, whatever the frame.
    open spec fn computes(
        &self,
        name: Seq<char>,
        input: i64,
        memory: (),
        frame: FrameCount,
        new_memory: (),
        output: String,
    ) -> bool {
        output@ == decimal_text(input as int)
    }

    fn call(&self, name: &String, input: &i64, memory: &mut (), frame: FrameCount) -> (r: String) {
        I64ToString::process(*input)
    }
}

impl Plugin<i64> for I64ToString {
    open spec fn spec_name(&self) -> Seq<char> {
        "i64 to string"@
    }

    open spec fn spec_plugin_id(&self) -> PluginId {
        PluginId(0x472866e3_f751_560b_47cd_31a08d3a7c78u128)
    }

    fn name(&self) -> (r: &'static str) {
        "i64 to string"
    }

    fn plugin_id(&self) -> (r: PluginId) {
        PluginId(0x472866e3_f751_560b_47cd_31a08d3a7c78u128)
    }

    /// A node named "i64 to string" with one `i64` input named "input",
    /// whose default value is 0, and one `String` output named "output".
    open spec fn builds(&self, node: GraphNode<i64>) -> bool {
        &&& node.name@ == "i64 to string"@
        &&& node.inputs@.len() == 1
        &&& node.inputs@[0].name@ == "input"@
        &&& node.inputs@[0].socket_type == TYPE_I64
        &&& node.inputs@[0].default_type == TYPE_I64
        &&& node.inputs@[0].default_value == Some(0i64)
        &&& node.outputs@.len() == 1
        &&& node.outputs@[0].name@ == "output"@
        &&& node.outputs@[0].socket_type == TYPE_STRING
    }

    fn build(&self) -> (node: GraphNode<i64>) {
        let mut inputs: Vec<InputSocket<i64>> = Vec::new();
        inputs.push(
            InputSocket {
                id: SocketId::new(),
                name: "input".to_string(),
                socket_type: TYPE_I64,
                default_type: TYPE_I64,
                default_value: Some(0i64),
            },
        );
        let mut outputs: Vec<OutputSocket> = Vec::new();
        outputs.push(
            OutputSocket { id: SocketId::new(), name: "output".to_string(), socket_type: TYPE_STRING },
        );
        GraphNode { id: NodeId::new(), name: "i64 to string".to_string(), inputs, outputs }
    }
}

} // verus!
