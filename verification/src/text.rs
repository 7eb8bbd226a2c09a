//! The text that the services and the C interface produce: decimal numbers,
//! greetings, worker replies and endpoint addresses.
use vstd::prelude::*;

verus! {

/// The character of a decimal digit.
pub open spec fn digit_char(d: nat) -> char
    recommends
        d < 10,
{
    if d == 0 {
        '0'
    } else if d == 1 {
        '1'
    } else if d == 2 {
        '2'
    } else if d == 3 {
        '3'
    } else if d == 4 {
        '4'
    } else if d == 5 {
        '5'
    } else if d == 6 {
        '6'
    } else if d == 7 {
        '7'
    } else if d == 8 {
        '8'
    } else {
        '9'
    }
}

/// The decimal notation of `n`, without sign or leading zeros
/// (as `format!("{}", n)` writes an unsigned integer).
pub open spec fn decimal(n: nat) -> Seq<char>
    decreases n,
{
    if n < 10 {
        seq![digit_char(n)]
    } else {
        decimal(n / 10).push(digit_char(n % 10))
    }
}

/// The one-character string of a decimal digit.
fn digit_str(d: u64) -> (s: &'static str)
    requires
        d < 10,
    ensures
        s@ == seq![digit_char(d as nat)],
{
    if d == 0 {
        proof {
            reveal_strlit("0");
        }
        "0"
    } else if d == 1 {
        proof {
            reveal_strlit("1");
        }
        "1"
    } else if d == 2 {
        proof {
            reveal_strlit("2");
        }
        "2"
    } else if d == 3 {
        proof {
            reveal_strlit("3");
        }
        "3"
    } else if d == 4 {
        proof {
            reveal_strlit("4");
        }
        "4"
    } else if d == 5 {
        proof {
            reveal_strlit("5");
        }
        "5"
    } else if d == 6 {
        proof {
            reveal_strlit("6");
        }
        "6"
    } else if d == 7 {
        proof {
            reveal_strlit("7");
        }
        "7"
    } else if d == 8 {
        proof {
            reveal_strlit("8");
        }
        "8"
    } else {
        proof {
            reveal_strlit("9");
        }
        "9"
    }
}

/// Appends the decimal notation of `n` to `s`.
pub fn push_decimal(s: &mut String, n: u64)
    ensures
        final(s)@ == old(s)@ + decimal(n as nat),
    decreases n,
{
    if n >= 10 {
        push_decimal(s, n / 10);
    }
    s.append(digit_str(n % 10));
    assert(old(s)@ + decimal(n as nat) =~= if n >= 10 {
        old(s)@ + decimal((n / 10) as nat) + seq![digit_char((n % 10) as nat)]
    } else {
        old(s)@ + seq![digit_char((n % 10) as nat)]
    });
}

/// The decimal notation of `n`.
pub fn to_decimal(n: u64) -> (s: String)
    ensures
        s@ == decimal(n as nat),
        all_digits(s@),
        digits_value(s@) == n,
        s@.len() >= 1,
        s@[0] == '0' ==> n == 0 && s@.len() == 1,
{
    proof {
        lemma_decimal_reads_back(n as nat);
    }
    let mut s = String::new();
    push_decimal(&mut s, n);
    assert(s@ =~= decimal(n as nat));
    s
}

/// The body of the request that the load-testing client sends as its
/// `i`-th request: the number in decimal.
pub fn request_body(i: u64) -> (s: String)
    ensures
        s@ == decimal(i as nat),
        all_digits(s@),
        digits_value(s@) == i,
{
    to_decimal(i)
}

/// The greeting that the C interface prints for a name.
pub open spec fn greeting_text(name: Seq<char>) -> Seq<char> {
    "Hello, "@ + name + "!"@
}

/// The line `Hello, <name>!`.
pub fn greeting(name: &str) -> (s: String)
    ensures
        s@ == greeting_text(name@),
        s@.len() == name@.len() + 8,
        s@.subrange(0, 7) == seq!['H', 'e', 'l', 'l', 'o', ',', ' '],
        s@.subrange(7, 7 + name@.len() as int) == name@,
        s@[7 + name@.len() as int] == '!',
{
    proof {
        lemma_greeting_holds_name(name@);
    }
    let mut s = String::from_str("Hello, ");
    s.append(name);
    s.append("!");
    s
}

/// The name that the C interface hands out.
pub fn default_name() -> (s: String)
    ensures
        s@ == "Alexander"@,
{
    String::from_str("Alexander")
}

/// The values of the vector that the C interface hands out.
pub fn demo_nums() -> (v: Vec<i32>)
    ensures
        v@ == seq![1i32, 2, 3, 4, 5, 6],
{
    let v: Vec<i32> = vec![1, 2, 3, 4, 5, 6];
    assert(v@ =~= seq![1i32, 2, 3, 4, 5, 6]);
    v
}

/// The reply of pool worker `idx` to a request whose body is `body`.
pub open spec fn worker_reply_text(idx: nat, body: Seq<char>) -> Seq<char> {
    ">>> worker"@ + decimal(idx) + " => "@ + body
}

/// The line `>>> worker<idx> => <body>` with which a pool worker answers.
pub fn worker_reply(idx: usize, body: &str) -> (s: String)
    ensures
        s@ == worker_reply_text(idx as nat, body@),
        s@.subrange(0, 10) == seq!['>', '>', '>', ' ', 'w', 'o', 'r', 'k', 'e', 'r'],
        digits_value(s@.subrange(10, s@.len() - 4 - body@.len())) == idx,
        all_digits(s@.subrange(10, s@.len() - 4 - body@.len())),
        s@.subrange(s@.len() - 4 - body@.len(), s@.len() - body@.len()) == seq![' ', '=', '>', ' '],
        s@.subrange(s@.len() - body@.len(), s@.len() as int) == body@,
{
    proof {
        lemma_worker_reply_names_worker(idx as nat, body@);
    }
    let mut s = String::from_str(">>> worker");
    push_decimal(&mut s, idx as u64);
    s.append(" => ");
    s.append(body);
    s
}

/// The reply `worker-<idx>` of a fixed-pool worker.
pub fn worker_tag(idx: usize) -> (s: String)
    ensures
        s@ == "worker-"@ + decimal(idx as nat),
        s@.subrange(0, 7) == seq!['w', 'o', 'r', 'k', 'e', 'r', '-'],
        all_digits(s@.subrange(7, s@.len() as int)),
        digits_value(s@.subrange(7, s@.len() as int)) == idx,
{
    proof {
        lemma_worker_tag_names_worker(idx as nat);
    }
    let mut s = String::from_str("worker-");
    push_decimal(&mut s, idx as u64);
    s
}

/// The port on which the hello service listens.
pub open spec fn service_port_text() -> Seq<char> {
    ":7788"@
}

/// The address of the hello service on a host: `http://<host>:7788`.
pub open spec fn endpoint_uri_text(host: Seq<char>) -> Seq<char> {
    "http://"@ + host + service_port_text()
}

/// The address `http://<host>:7788` of the hello service on `host`.
pub fn endpoint_uri(host: &str) -> (s: String)
    ensures
        s@ == endpoint_uri_text(host@),
        s@.len() == host@.len() + 12,
        s@.subrange(0, 7) == seq!['h', 't', 't', 'p', ':', '/', '/'],
        s@.subrange(7, 7 + host@.len() as int) == host@,
        s@.subrange(7 + host@.len() as int, 12 + host@.len() as int) == seq![':', '7', '7', '8', '8'],
{
    proof {
        lemma_endpoint_uri_parts(host@);
    }
    let mut s = String::from_str("http://");
    s.append(host);
    s.append(":7788");
    s
}

/// Whether every character of `s` is a decimal digit.
pub open spec fn all_digits(s: Seq<char>) -> bool {
    forall|i: int| 0 <= i < s.len() ==> '0' <= #[trigger] s[i] <= '9'
}

/// The number that a string of decimal digits stands for, the last digit
/// counting ones, the one before it tens, and so on.
pub open spec fn digits_value(s: Seq<char>) -> int
    decreases s.len(),
{
    if s.len() == 0 {
        0
    } else {
        digits_value(s.drop_last()) * 10 + (s.last() as int - '0' as int)
    }
}

/// A digit's character stands for the digit.
proof fn lemma_digit_char_value(d: nat)
    requires
        d < 10,
    ensures
        '0' <= digit_char(d) <= '9',
        digit_char(d) as int - '0' as int == d,
{
}

/// The decimal notation of `n` is base-10 notation: it is made of digits,
/// it reads back to `n`, and it has no leading zero (only 0 itself starts
/// with `0`, and is then the one digit).
pub proof fn lemma_decimal_reads_back(n: nat)
    ensures
        decimal(n).len() >= 1,
        all_digits(decimal(n)),
        digits_value(decimal(n)) == n,
        decimal(n)[0] == '0' ==> n == 0 && decimal(n).len() == 1,
    decreases n,
{
    lemma_digit_char_value(n % 10);
    if n < 10 {
        let s = seq![digit_char(n)];
        assert(decimal(n) == s);
        assert(s.drop_last() =~= Seq::<char>::empty());
        assert(digits_value(s) == digits_value(s.drop_last()) * 10 + (s.last() as int - '0' as int));
    } else {
        let q = n / 10;
        let r = n % 10;
        lemma_decimal_reads_back(q);
        let d = decimal(q);
        let s = d.push(digit_char(r));
        assert(decimal(n) == s);
        assert(s.drop_last() =~= d);
        assert(s[0] == d[0]);
        assert forall|i: int| 0 <= i < s.len() implies '0' <= #[trigger] s[i] <= '9' by {
            if i < d.len() {
                assert(s[i] == d[i]);
            }
        }
        assert(n == q * 10 + r);
        assert(digits_value(s) == digits_value(s.drop_last()) * 10 + (s.last() as int - '0' as int));
    }
}

/// Different numbers have different decimal notations.
pub proof fn lemma_decimal_injective(a: nat, b: nat)
    ensures
        decimal(a) == decimal(b) ==> a == b,
{
    lemma_decimal_reads_back(a);
    lemma_decimal_reads_back(b);
}

/// The greeting holds the whole name: `Hello, `, then the name, then `!`,
/// whatever the name's length.
pub proof fn lemma_greeting_holds_name(name: Seq<char>)
    ensures
        greeting_text(name).len() == name.len() + 8,
        greeting_text(name).subrange(0, 7) == seq!['H', 'e', 'l', 'l', 'o', ',', ' '],
        greeting_text(name).subrange(7, 7 + name.len() as int) == name,
        greeting_text(name)[7 + name.len() as int] == '!',
{
    reveal_strlit("Hello, ");
    reveal_strlit("!");
    let g = greeting_text(name);
    assert(g.subrange(0, 7) =~= seq!['H', 'e', 'l', 'l', 'o', ',', ' ']);
    assert(g.subrange(7, 7 + name.len() as int) =~= name);
}

/// The service URI of a host is `http://`, then the whole host, then the
/// service port `:7788`, whatever the host's length.
pub proof fn lemma_endpoint_uri_parts(host: Seq<char>)
    ensures
        endpoint_uri_text(host).len() == host.len() + 12,
        endpoint_uri_text(host).subrange(0, 7) == seq!['h', 't', 't', 'p', ':', '/', '/'],
        endpoint_uri_text(host).subrange(7, 7 + host.len() as int) == host,
        endpoint_uri_text(host).subrange(7 + host.len() as int, 12 + host.len() as int) == seq![
            ':',
            '7',
            '7',
            '8',
            '8',
        ],
{
    reveal_strlit("http://");
    reveal_strlit(":7788");
    let u = endpoint_uri_text(host);
    assert(u.subrange(0, 7) =~= seq!['h', 't', 't', 'p', ':', '/', '/']);
    assert(u.subrange(7, 7 + host.len() as int) =~= host);
    assert(u.subrange(7 + host.len() as int, 12 + host.len() as int) =~= seq![':', '7', '7', '8', '8']);
}

/// A pool worker's reply names the worker's own number: `>>> worker`, then
/// base-10 digits that read back to `idx`, then ` => `, then the request
/// body.
pub proof fn lemma_worker_reply_names_worker(idx: nat, body: Seq<char>)
    ensures
        ({
            let r = worker_reply_text(idx, body);
            let m = r.len() - 4 - body.len();
            &&& 10 < m
            &&& r.subrange(0, 10) == seq!['>', '>', '>', ' ', 'w', 'o', 'r', 'k', 'e', 'r']
            &&& all_digits(r.subrange(10, m))
            &&& digits_value(r.subrange(10, m)) == idx
            &&& r.subrange(m, m + 4) == seq![' ', '=', '>', ' ']
            &&& r.subrange(m + 4, r.len() as int) == body
        }),
{
    reveal_strlit(">>> worker");
    reveal_strlit(" => ");
    lemma_decimal_reads_back(idx);
    let d = decimal(idx);
    let r = worker_reply_text(idx, body);
    let m = r.len() - 4 - body.len();
    assert(m == 10 + d.len());
    assert(r.subrange(0, 10) =~= seq!['>', '>', '>', ' ', 'w', 'o', 'r', 'k', 'e', 'r']);
    assert(r.subrange(10, m) =~= d);
    assert(r.subrange(m, m + 4) =~= seq![' ', '=', '>', ' ']);
    assert(r.subrange(m + 4, r.len() as int) =~= body);
}

/// Different workers answer the same request differently.
pub proof fn lemma_worker_reply_distinct(a: nat, b: nat, body: Seq<char>)
    ensures
        worker_reply_text(a, body) == worker_reply_text(b, body) ==> a == b,
{
    lemma_worker_reply_names_worker(a, body);
    lemma_worker_reply_names_worker(b, body);
}

/// A fixed-pool worker's reply is `worker-`, then base-10 digits that read
/// back to the worker's number.
pub proof fn lemma_worker_tag_names_worker(idx: nat)
    ensures
        ({
            let t = "worker-"@ + decimal(idx);
            &&& t.len() > 7
            &&& t.subrange(0, 7) == seq!['w', 'o', 'r', 'k', 'e', 'r', '-']
            &&& all_digits(t.subrange(7, t.len() as int))
            &&& digits_value(t.subrange(7, t.len() as int)) == idx
        }),
{
    reveal_strlit("worker-");
    lemma_decimal_reads_back(idx);
    let t = "worker-"@ + decimal(idx);
    assert(t.subrange(0, 7) =~= seq!['w', 'o', 'r', 'k', 'e', 'r', '-']);
    assert(t.subrange(7, t.len() as int) =~= decimal(idx));
}

} // verus!
