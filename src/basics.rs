//! Small arithmetic, string and array routines offered to a host program.
use vstd::prelude::*;

verus! {

/// A point of the integer plane.
#[derive(Clone, Copy, Debug, PartialEq, Eq, Structural)]
pub struct Point {
    pub x: i32,
    pub y: i32,
}

/// The sum of two numbers.
pub fn rust_add(a: i32, b: i32) -> (r: i32)
    requires
        i32::MIN <= a + b <= i32::MAX,
    ensures
        r == a + b,
{
    a + b
}

pub open spec fn factorial(n: nat) -> nat
    decreases n,
{
    if n <= 1 {
        1
    } else {
        n * factorial((n - 1) as nat)
    }
}

proof fn lemma_factorial_monotone(n: nat)
    requires
        n >= 1,
    ensures
        factorial((n - 1) as nat) <= factorial(n),
        factorial(n) >= 1,
    decreases n,
{
    if n > 1 {
        lemma_factorial_monotone((n - 1) as nat);
        assert(factorial((n - 1) as nat) <= n * factorial((n - 1) as nat)) by (nonlinear_arith)
            requires
                n >= 1,
        ;
    }
}

/// `n!`, with `0! = 1`.
pub fn rust_factorial(n: u32) -> (r: u32)
    requires
        factorial(n as nat) <= u32::MAX,
    ensures
        r == factorial(n as nat),
    decreases n,
{
    if n <= 1 {
        1
    } else {
        proof {
            lemma_factorial_monotone(n as nat);
        }
        n * rust_factorial(n - 1)
    }
}

/// The number of bytes before the first zero byte of `s`.
pub fn rust_strlen(s: &[u8]) -> (r: usize)
    ensures
        r <= s@.len(),
        forall|j: int| 0 <= j < r ==> s@[j] != 0,
        r < s@.len() ==> s@[r as int] == 0,
{
    let mut len: usize = 0;
    while len < s.len() && s[len] != 0
        invariant
            len <= s@.len(),
            forall|j: int| 0 <= j < len ==> s@[j] != 0,
        decreases s@.len() - len,
    {
        len = len + 1;
    }
    len
}

/// Whether `t` reads the same forwards and backwards.
pub open spec fn is_palindrome(t: Seq<u8>) -> bool {
    forall|i: int| 0 <= i < t.len() ==> #[trigger] t[i] == t[t.len() - 1 - i]
}

/// Whether `n` is the length of the NUL-terminated string at the start of
/// `s`: the index of its first zero byte, or its whole length if it holds none.
pub open spec fn is_c_len(s: Seq<u8>, n: int) -> bool {
    &&& 0 <= n <= s.len()
    &&& forall|j: int| 0 <= j < n ==> s[j] != 0
    &&& n < s.len() ==> s[n] == 0
}

/// Whether the NUL-terminated string at the start of `s` is a palindrome.
pub fn rust_is_palindrome(s: &[u8]) -> (r: bool)
    ensures
        forall|n: int| is_c_len(s@, n) ==> r == is_palindrome(#[trigger] s@.take(n)),
{
    let len = rust_strlen(s);
    let ghost t = s@.take(len as int);
    proof {
        assert forall|n: int| is_c_len(s@, n) implies n == len by {
            if n < len {
                assert(s@[n] != 0);
            } else if n > len {
                assert(s@[len as int] != 0);
            }
        }
    }
    let mut i: usize = 0;
    while i < len / 2
        invariant
            len <= s@.len(),
            t == s@.take(len as int),
            forall|n: int| is_c_len(s@, n) ==> n == len,
            i <= len / 2,
            forall|j: int| 0 <= j < i ==> #[trigger] s@[j] == s@[len - 1 - j],
        decreases len / 2 - i,
    {
        if s[i] != s[len - 1 - i] {
            proof {
                assert(t[i as int] != t[len - 1 - i]);
            }
            return false;
        }
        i = i + 1;
    }
    proof {
        assert forall|j: int| 0 <= j < t.len() implies #[trigger] t[j] == t[t.len() - 1 - j] by {
            if j < i {
                assert(s@[j] == s@[len - 1 - j]);
            } else {
                let k = len - 1 - j;
                assert(s@[k] == s@[len - 1 - k]);
            }
        }
    }
    true
}

/// One line of FizzBuzz.
#[derive(Clone, Copy, Debug, PartialEq, Eq, Structural)]
pub enum FizzBuzz {
    FizzBuzz,
    Fizz,
    Buzz,
    Number(u32),
}

/// The FizzBuzz line for `i`.
pub open spec fn fizzbuzz_of(i: u32) -> FizzBuzz {
    if i % 3 == 0 && i % 5 == 0 {
        FizzBuzz::FizzBuzz
    } else if i % 3 == 0 {
        FizzBuzz::Fizz
    } else if i % 5 == 0 {
        FizzBuzz::Buzz
    } else {
        FizzBuzz::Number(i)
    }
}

/// The FizzBuzz lines for `1..=n`, in order.
pub fn rust_fizzbuzz(n: u32) -> (r: Vec<FizzBuzz>)
    ensures
        r@.len() == n,
        forall|k: int| 0 <= k < n ==> r@[k] == fizzbuzz_of((k + 1) as u32),
{
    let mut out: Vec<FizzBuzz> = Vec::new();
    let mut i: u32 = 0;
    while i < n
        invariant
            i <= n,
            out@.len() == i,
            forall|k: int| 0 <= k < i ==> out@[k] == fizzbuzz_of((k + 1) as u32),
        decreases n - i,
    {
        let v = i + 1;
        let line = if v % 3 == 0 && v % 5 == 0 {
            FizzBuzz::FizzBuzz
        } else if v % 3 == 0 {
            FizzBuzz::Fizz
        } else if v % 5 == 0 {
            FizzBuzz::Buzz
        } else {
            FizzBuzz::Number(v)
        };
        out.push(line);
        i = v;
    }
    out
}

pub open spec fn distance_squared(p1: Point, p2: Point) -> int {
    (p1.x - p2.x) * (p1.x - p2.x) + (p1.y - p2.y) * (p1.y - p2.y)
}

/// The squared Euclidean distance between two points.
pub fn rust_point_distance_squared(p1: Point, p2: Point) -> (r: i32)
    requires
        i32::MIN <= p1.x - p2.x <= i32::MAX,
        i32::MIN <= p1.y - p2.y <= i32::MAX,
        distance_squared(p1, p2) <= i32::MAX,
    ensures
        r == distance_squared(p1, p2),
{
    let dx = p1.x - p2.x;
    let dy = p1.y - p2.y;
    proof {
        assert(dx * dx >= 0 && dy * dy >= 0) by (nonlinear_arith);
    }
    dx * dx + dy * dy
}

/// The sum of a sequence of integers.
pub open spec fn sum_of(s: Seq<i32>) -> int
    decreases s.len(),
{
    if s.len() == 0 {
        0
    } else {
        sum_of(s.drop_last()) + s.last()
    }
}

/// The sum of the elements of `arr`; every partial sum must fit in an `i32`.
pub fn rust_array_sum(arr: &[i32]) -> (r: i32)
    requires
        forall|k: int| 0 <= k <= arr@.len() ==> i32::MIN <= #[trigger] sum_of(arr@.take(k)) <= i32::MAX,
    ensures
        r == sum_of(arr@),
{
    let mut sum: i32 = 0;
    let mut i: usize = 0;
    proof {
        assert(arr@.take(0) =~= Seq::<i32>::empty());
    }
    while i < arr.len()
        invariant
            i <= arr@.len(),
            sum == sum_of(arr@.take(i as int)),
            forall|k: int| 0 <= k <= arr@.len() ==> i32::MIN <= #[trigger] sum_of(arr@.take(k)) <= i32::MAX,
        decreases arr@.len() - i,
    {
        proof {
            assert(arr@.take(i + 1).drop_last() =~= arr@.take(i as int));
            assert(i32::MIN <= sum_of(arr@.take(i + 1)) <= i32::MAX);
        }
        sum = sum + arr[i];
        i = i + 1;
    }
    proof {
        assert(arr@.take(i as int) =~= arr@);
    }
    sum
}

/// The largest element of `arr`, or 0 when it is empty.
pub fn rust_array_max(arr: &[i32]) -> (r: i32)
    ensures
        arr@.len() == 0 ==> r == 0,
        arr@.len() > 0 ==> arr@.contains(r) && forall|j: int| 0 <= j < arr@.len() ==> arr@[j] <= r,
{
    if arr.len() == 0 {
        return 0;
    }
    let mut max = arr[0];
    let mut i: usize = 1;
    while i < arr.len()
        invariant
            1 <= i <= arr@.len(),
            arr@.contains(max),
            forall|j: int| 0 <= j < i ==> arr@[j] <= max,
        decreases arr@.len() - i,
    {
        let val = arr[i];
        if val > max {
            max = val;
        }
        i = i + 1;
    }
    max
}

/// `1² + 2² + ... + n²`.
pub open spec fn sum_of_squares(n: nat) -> nat
    decreases n,
{
    if n == 0 {
        0
    } else {
        sum_of_squares((n - 1) as nat) + n * n
    }
}

proof fn lemma_sum_of_squares_monotone(a: nat, b: nat)
    requires
        a <= b,
    ensures
        sum_of_squares(a) <= sum_of_squares(b),
    decreases b - a,
{
    if a < b {
        lemma_sum_of_squares_monotone(a, (b - 1) as nat);
        assert(b * b >= 0) by (nonlinear_arith);
    }
}

/// The sum of the squares of `1..=n`.
pub fn rust_sum_of_squares(n: u32) -> (r: u32)
    requires
        sum_of_squares(n as nat) <= u32::MAX,
    ensures
        r == sum_of_squares(n as nat),
{
    let mut acc: u32 = 0;
    let mut x: u32 = 0;
    while x < n
        invariant
            x <= n,
            acc == sum_of_squares(x as nat),
            sum_of_squares(n as nat) <= u32::MAX,
        decreases n - x,
    {
        let v = x + 1;
        proof {
            lemma_sum_of_squares_monotone(v as nat, n as nat);
            assert(sum_of_squares(v as nat) == acc + v * v);
            assert(v * v >= 0) by (nonlinear_arith);
        }
        acc = acc + v * v;
        x = v;
    }
    acc
}

} // verus!
