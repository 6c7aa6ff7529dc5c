//! The texts that name tasks, rows and endpoints.

use vstd::prelude::*;
use vstd::string::*;

verus! {

/// The lower-case hexadecimal digit that stands for `n`, a number below sixteen.
pub open spec fn hex_digit(n: int) -> char {
    if n < 10 {
        ('0' as int + n) as char
    } else {
        ('a' as int + (n - 10)) as char
    }
}

/// The lower-case hexadecimal text of `bytes`: two digits for each byte, the high one first.
pub open spec fn hex_text(bytes: Seq<u8>) -> Seq<char> {
    Seq::new(
        2 * bytes.len(),
        |i: int|
            if i % 2 == 0 {
                hex_digit(bytes[i / 2] as int / 16)
            } else {
                hex_digit(bytes[i / 2] as int % 16)
            },
    )
}

/// The decimal digit that stands for `n`, a number below ten.
pub open spec fn decimal_digit(n: nat) -> char {
    ('0' as int + n) as char
}

/// The decimal text of `n`, without leading zeros.
pub open spec fn decimal(n: nat) -> Seq<char>
    decreases n,
{
    if n < 10 {
        seq![decimal_digit(n)]
    } else {
        decimal(n / 10).push(decimal_digit(n % 10))
    }
}

/// The key under which a task is sent to a worker, kept as pending and stored once completed:
/// the hexadecimal text of the node's identity.
pub open spec fn task_key(node_id: Seq<u8>) -> Seq<char> {
    hex_text(node_id)
}

/// The identifier with which a submission is answered: the task's key and the bounds of its
/// nonces, joined by dashes.
pub open spec fn submission_id(node_id: Seq<u8>, start_nonce: u32, end_nonce: u32) -> Seq<char> {
    hex_text(node_id) + seq!['-'] + decimal(start_nonce as nat) + seq!['-'] + decimal(
        end_nonce as nat,
    )
}

/// Calls `hex::encode`. Its documentation says that the data are encoded with lower-case
/// characters and that each byte takes two digits; the contract says which two.
#[verifier::external_body]
fn hex_encode(data: &[u8; 32]) -> (text: String)
    ensures
        text@ == hex_text(data@),
{
    hex::encode(data)
}

/// Calls std's `to_string` on a number. The contract says that it is written in decimal.
#[verifier::external_body]
fn decimal_text(n: u32) -> (text: String)
    ensures
        text@ == decimal(n as nat),
{
    n.to_string()
}

/// The key of the task of a node.
pub fn key_of_node(node_id: &[u8; 32]) -> (key: String)
    ensures
        key@ == task_key(node_id@),
        key@ == hex_text(node_id@),
{
    hex_encode(node_id)
}

/// The identifier with which the submission of a node's task is answered.
pub fn id_of_submission(node_id: &[u8; 32], start_nonce: u32, end_nonce: u32) -> (id: String)
    ensures
        id@ == submission_id(node_id@, start_nonce, end_nonce),
        id@ == hex_text(node_id@) + seq!['-'] + decimal(start_nonce as nat) + seq!['-'] + decimal(
            end_nonce as nat,
        ),
{
    proof {
        reveal_strlit("-");
        assert("-"@ =~= seq!['-']);
    }
    let mut id: String = hex_encode(node_id);
    id.append("-");
    id.append(decimal_text(start_nonce).as_str());
    id.append("-");
    id.append(decimal_text(end_nonce).as_str());
    id
}

/// The width to which the identifier of a stored row is padded.
pub const ROW_ID_WIDTH: usize = 80;

/// `id` followed by as many asterisks as it is shorter than the width of a row's identifier.
pub open spec fn row_id(id: Seq<char>) -> Seq<char> {
    if id.len() < ROW_ID_WIDTH {
        id + Seq::new((ROW_ID_WIDTH - id.len()) as nat, |i: int| '*')
    } else {
        id
    }
}

/// Pads an identifier to the width of a row's identifier.
pub fn pad_row_id(id: &str) -> (padded: String)
    ensures
        padded@ == row_id(id@),
        padded@.len() == if id@.len() < 80 {
            80
        } else {
            id@.len()
        },
        forall|i: int| 0 <= i < id@.len() ==> padded@[i] == id@[i],
        forall|i: int| id@.len() <= i < padded@.len() ==> padded@[i] == '*',
{
    let length: usize = id.unicode_len();
    let mut padded: String = String::from_str(id);
    let mut n: usize = length;
    proof {
        reveal_strlit("*");
    }
    assert(padded@ =~= id@ + Seq::new(0nat, |i: int| '*'));
    while n < ROW_ID_WIDTH
        invariant
            length == id@.len(),
            length <= n,
            length < ROW_ID_WIDTH ==> n <= ROW_ID_WIDTH,
            length >= ROW_ID_WIDTH ==> n == length,
            "*"@ =~= seq!['*'],
            padded@ == id@ + Seq::new((n - length) as nat, |i: int| '*'),
        decreases ROW_ID_WIDTH - n,
    {
        padded.append("*");
        n = n + 1;
        assert(padded@ =~= id@ + Seq::new((n - length) as nat, |i: int| '*'));
    }
    assert(padded@ =~= row_id(id@));
    padded
}

/// The address of a service's HTTP interface.
pub open spec fn base_url(address: Seq<char>) -> Seq<char> {
    "http://"@ + address
}

/// The URL of the endpoint `path` of the service at `address`.
pub open spec fn endpoint(address: Seq<char>, path: Seq<char>) -> Seq<char> {
    base_url(address) + path
}

/// Builds the URL of an endpoint.
pub fn endpoint_url(address: &str, path: &str) -> (url: String)
    ensures
        url@ == endpoint(address@, path@),
        url@ == "http://"@ + address@ + path@,
{
    let mut url: String = String::from_str("http://");
    url.append(address);
    url.append(path);
    url
}

/// The URL at which a service says that it is alive.
pub fn health_url(server: &str) -> (url: String)
    ensures
        url@ == "http://"@ + server@ + "/health"@,
{
    endpoint_url(server, "/health")
}

/// No character of `text` is a dash.
pub open spec fn dash_free(text: Seq<char>) -> bool {
    forall|i: int| 0 <= i < text.len() ==> text[i] != '-'
}

proof fn lemma_hex_digit(a: int, b: int)
    requires
        0 <= a < 16,
        0 <= b < 16,
    ensures
        hex_digit(a) != '-',
        hex_digit(a) == hex_digit(b) ==> a == b,
{
}

/// A hexadecimal text holds no dash.
pub proof fn hex_text_is_dash_free(bytes: Seq<u8>)
    ensures
        dash_free(hex_text(bytes)),
{
    assert forall|i: int| 0 <= i < hex_text(bytes).len() implies hex_text(bytes)[i] != '-' by {
        lemma_hex_digit(bytes[i / 2] as int / 16, 0);
        lemma_hex_digit(bytes[i / 2] as int % 16, 0);
    }
}

/// The key of a task spells the identity of its node, byte by byte: of the two characters of each
/// byte the first stands for its upper four bits and the second for its lower four, `0` to `9`
/// for the numbers below ten and `a` to `f` for the others.
pub proof fn task_key_spells_the_identity(node_id: Seq<u8>, i: int)
    requires
        0 <= i < node_id.len(),
    ensures
        task_key(node_id).len() == 2 * node_id.len(),
        task_key(node_id)[2 * i] as int == if node_id[i] / 16 < 10 {
            48 + node_id[i] / 16
        } else {
            87 + node_id[i] / 16
        },
        task_key(node_id)[2 * i + 1] as int == if node_id[i] % 16 < 10 {
            48 + node_id[i] % 16
        } else {
            87 + node_id[i] % 16
        },
{
    assert((2 * i + 1) / 2 == i);
}

/// Different identities have different task keys.
pub proof fn task_key_is_injective(a: Seq<u8>, b: Seq<u8>)
    ensures
        task_key(a) == task_key(b) <==> a == b,
{
    if hex_text(a) == hex_text(b) {
        assert(hex_text(a).len() == hex_text(b).len());
        assert forall|i: int| 0 <= i < a.len() implies a[i] == b[i] by {
            assert(hex_text(a)[2 * i] == hex_text(b)[2 * i]);
            assert(hex_text(a)[2 * i + 1] == hex_text(b)[2 * i + 1]);
            assert((2 * i + 1) / 2 == i);
            lemma_hex_digit(a[i] as int / 16, b[i] as int / 16);
            lemma_hex_digit(a[i] as int % 16, b[i] as int % 16);
        }
        assert(a =~= b);
    }
}

proof fn lemma_decimal_is_dash_free(n: nat)
    ensures
        dash_free(decimal(n)),
        decimal(n).len() > 0,
    decreases n,
{
    if n >= 10 {
        lemma_decimal_is_dash_free(n / 10);
    }
}

/// The number whose decimal text `text` is, read from the left.
pub open spec fn number_of(text: Seq<char>) -> int
    decreases text.len(),
{
    if text.len() == 0 {
        0
    } else {
        10 * number_of(text.drop_last()) + (text.last() as int - 48)
    }
}

/// The decimal text of a number is read back as that number; it is made of digits, and begins
/// with a zero only if the number is zero.
pub proof fn decimal_is_read_back(n: nat)
    ensures
        number_of(decimal(n)) == n,
        decimal(n).len() > 0,
        forall|i: int| 0 <= i < decimal(n).len() ==> 48 <= #[trigger] decimal(n)[i] as int <= 57,
        decimal(n)[0] as int == 48 <==> n == 0,
    decreases n,
{
    if n >= 10 {
        decimal_is_read_back(n / 10);
        assert(decimal(n).drop_last() =~= decimal(n / 10));
    } else {
        assert(decimal(n).drop_last() =~= Seq::<char>::empty());
        assert(number_of(Seq::<char>::empty()) == 0);
    }
}

/// The identifier of a submission begins with the task's key, then come a dash, the number at
/// which its nonces start, a dash and the number at which they end.
pub proof fn submission_id_spells_the_submission(
    node_id: Seq<u8>,
    start_nonce: u32,
    end_nonce: u32,
)
    ensures
        ({
            let id = submission_id(node_id, start_nonce, end_nonce);
            let key = task_key(node_id).len() as int;
            let start = decimal(start_nonce as nat).len() as int;
            &&& id.take(key) == task_key(node_id)
            &&& id[key] == '-'
            &&& number_of(id.subrange(key + 1, key + 1 + start)) == start_nonce
            &&& id[key + 1 + start] == '-'
            &&& number_of(id.skip(key + start + 2)) == end_nonce
            &&& id.len() == key + start + 2 + decimal(end_nonce as nat).len()
        }),
{
    let id = submission_id(node_id, start_nonce, end_nonce);
    let key = task_key(node_id).len() as int;
    let start = decimal(start_nonce as nat).len() as int;
    decimal_is_read_back(start_nonce as nat);
    decimal_is_read_back(end_nonce as nat);
    assert(id.take(key) =~= task_key(node_id));
    assert(id.subrange(key + 1, key + 1 + start) =~= decimal(start_nonce as nat));
    assert(id.skip(key + start + 2) =~= decimal(end_nonce as nat));
}

/// Different numbers have different decimal texts.
pub proof fn decimal_is_injective(a: nat, b: nat)
    ensures
        decimal(a) == decimal(b) <==> a == b,
    decreases a,
{
    if decimal(a) == decimal(b) {
        if a >= 10 {
            lemma_decimal_is_dash_free(a / 10);
        }
        if b >= 10 {
            lemma_decimal_is_dash_free(b / 10);
        }
        assert(decimal(a).last() == decimal_digit(a % 10));
        assert(decimal(b).last() == decimal_digit(b % 10));
        assert(a % 10 == b % 10);
        if a >= 10 {
            assert(decimal(a).len() >= 2);
            assert(b >= 10);
            assert(decimal(a).drop_last() =~= decimal(a / 10));
            assert(decimal(b).drop_last() =~= decimal(b / 10));
            decimal_is_injective(a / 10, b / 10);
        } else {
            assert(decimal(a).len() == 1);
            assert(b < 10);
        }
    }
}

/// Two texts that start with dash-free parts of their own, each followed by a dash, agree only
/// if those parts agree and what follows the dash agrees.
proof fn lemma_split_at_first_dash(a: Seq<char>, x: Seq<char>, b: Seq<char>, y: Seq<char>)
    requires
        dash_free(a),
        dash_free(b),
        a + seq!['-'] + x == b + seq!['-'] + y,
    ensures
        a == b,
        x == y,
{
    let left = a + seq!['-'] + x;
    let right = b + seq!['-'] + y;
    if a.len() < b.len() {
        assert(left[a.len() as int] == '-');
        assert(right[a.len() as int] == b[a.len() as int]);
    }
    if b.len() < a.len() {
        assert(right[b.len() as int] == '-');
        assert(left[b.len() as int] == a[b.len() as int]);
    }
    assert forall|i: int| 0 <= i < a.len() implies a[i] == b[i] by {
        assert(left[i] == right[i]);
    }
    assert(a =~= b);
    assert(left.len() == right.len());
    assert forall|i: int| 0 <= i < x.len() implies x[i] == y[i] by {
        assert(left[a.len() + 1 + i] == right[b.len() + 1 + i]);
    }
    assert(x =~= y);
}

/// Two submissions are answered with the same identifier exactly if they name the same node and
/// the same nonces.
pub proof fn submission_id_is_injective(
    node_a: Seq<u8>,
    start_a: u32,
    end_a: u32,
    node_b: Seq<u8>,
    start_b: u32,
    end_b: u32,
)
    ensures
        submission_id(node_a, start_a, end_a) == submission_id(node_b, start_b, end_b) <==> {
            &&& node_a == node_b
            &&& start_a == start_b
            &&& end_a == end_b
        },
{
    let a = submission_id(node_a, start_a, end_a);
    let b = submission_id(node_b, start_b, end_b);
    let rest_a = decimal(start_a as nat) + seq!['-'] + decimal(end_a as nat);
    let rest_b = decimal(start_b as nat) + seq!['-'] + decimal(end_b as nat);
    assert(a =~= hex_text(node_a) + seq!['-'] + rest_a);
    assert(b =~= hex_text(node_b) + seq!['-'] + rest_b);
    if a == b {
        hex_text_is_dash_free(node_a);
        hex_text_is_dash_free(node_b);
        lemma_split_at_first_dash(hex_text(node_a), rest_a, hex_text(node_b), rest_b);
        task_key_is_injective(node_a, node_b);
        lemma_decimal_is_dash_free(start_a as nat);
        lemma_decimal_is_dash_free(start_b as nat);
        lemma_split_at_first_dash(
            decimal(start_a as nat),
            decimal(end_a as nat),
            decimal(start_b as nat),
            decimal(end_b as nat),
        );
        decimal_is_injective(start_a as nat, start_b as nat);
        decimal_is_injective(end_a as nat, end_b as nat);
    }
}

/// The identifier with which a submission is answered is the key of no task.
pub proof fn submission_id_is_no_task_key(
    node_id: Seq<u8>,
    start_nonce: u32,
    end_nonce: u32,
    other: Seq<u8>,
)
    ensures
        submission_id(node_id, start_nonce, end_nonce) != task_key(other),
{
    let id = submission_id(node_id, start_nonce, end_nonce);
    hex_text_is_dash_free(other);
    assert(id[hex_text(node_id).len() as int] == '-');
}

/// Padding keeps the identifier in front and fills up with asterisks to the width of a row's
/// identifier; padding once more changes nothing.
pub proof fn row_id_is_idempotent(id: Seq<char>)
    ensures
        row_id(row_id(id)) == row_id(id),
        row_id(id).len() >= ROW_ID_WIDTH,
        id.is_prefix_of(row_id(id)),
        row_id(id).len() == if id.len() < 80 {
            80
        } else {
            id.len()
        },
        forall|i: int| id.len() <= i < row_id(id).len() ==> #[trigger] row_id(id)[i] == '*',
{
}

/// Two identifiers that do not end in an asterisk and are padded to the same text are the same.
pub proof fn row_id_is_injective(a: Seq<char>, b: Seq<char>)
    requires
        a.len() > 0 ==> a.last() != '*',
        b.len() > 0 ==> b.last() != '*',
    ensures
        row_id(a) == row_id(b) <==> a == b,
{
    if row_id(a) == row_id(b) {
        if a.len() < b.len() {
            assert(row_id(a)[b.len() - 1] == row_id(b)[b.len() - 1]);
        }
        if b.len() < a.len() {
            assert(row_id(a)[a.len() - 1] == row_id(b)[a.len() - 1]);
        }
        assert forall|i: int| 0 <= i < a.len() implies a[i] == b[i] by {
            assert(row_id(a)[i] == row_id(b)[i]);
        }
        assert(a =~= b);
    }
}

} // verus!
