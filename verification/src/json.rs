use vstd::prelude::*;

verus! {

/// A JSON number as the document carries it: an integer, or the shortest
/// decimal text of a binary64 value.
#[derive(Debug)]
pub enum JNum {
    PosInt(u64),
    NegInt(i64),
    Float(String),
}

/// A JSON value held by the library.
#[derive(Debug)]
pub enum Json {
    Null,
    Bool(bool),
    Num(JNum),
    Str(String),
    Arr(Vec<Json>),
    Obj(Vec<(String, Json)>),
}

/// Mathematical model of a JSON number.
pub enum NumV {
    PosInt(u64),
    NegInt(i64),
    Float(Seq<char>),
}

/// Mathematical model of a JSON value.
pub enum JVal {
    Null,
    Bool(bool),
    Num(NumV),
    Str(Seq<char>),
    Arr(Seq<JVal>),
    Obj(Seq<(Seq<char>, JVal)>),
}

impl View for JNum {
    type V = NumV;
    open spec fn view(&self) -> NumV {
        match self {
            JNum::PosInt(n) => NumV::PosInt(*n),
            JNum::NegInt(n) => NumV::NegInt(*n),
            JNum::Float(s) => NumV::Float(s@),
        }
    }
}

pub open spec fn json_view(j: Json) -> JVal
    decreases j,
{
    match j {
        Json::Null => JVal::Null,
        Json::Bool(b) => JVal::Bool(b),
        Json::Num(n) => JVal::Num(n@),
        Json::Str(s) => JVal::Str(s@),
        Json::Arr(v) => JVal::Arr(Seq::new(v@.len(), |i: int| if 0 <= i < v@.len() { json_view(v@[i]) } else { JVal::Null })),
        Json::Obj(v) => JVal::Obj(Seq::new(v@.len(), |i: int| if 0 <= i < v@.len() { (v@[i].0@, json_view(v@[i].1)) } else { (Seq::empty(), JVal::Null) })),
    }
}

impl View for Json {
    type V = JVal;
    open spec fn view(&self) -> JVal {
        json_view(*self)
    }
}

} // verus!

verus! {

impl JNum {
    /// Equality of two numbers as JSON values.
    pub fn eq_num(&self, other: &JNum) -> (r: bool)
        ensures
            r == (self@ == other@),
    {
        match (self, other) {
            (JNum::PosInt(a), JNum::PosInt(b)) => *a == *b,
            (JNum::NegInt(a), JNum::NegInt(b)) => *a == *b,
            (JNum::Float(a), JNum::Float(b)) => *a == *b,
            _ => false,
        }
    }

    pub fn copy_num(&self) -> (r: JNum)
        ensures
            r@ == self@,
    {
        match self {
            JNum::PosInt(a) => JNum::PosInt(*a),
            JNum::NegInt(a) => JNum::NegInt(*a),
            JNum::Float(a) => JNum::Float(a.clone()),
        }
    }
}

/// Structural equality of JSON values (the equality of the model).
pub fn json_eq(a: &Json, b: &Json) -> (r: bool)
    ensures
        r == (a@ == b@),
    decreases a,
{
    match (a, b) {
        (Json::Null, Json::Null) => true,
        (Json::Bool(x), Json::Bool(y)) => *x == *y,
        (Json::Num(x), Json::Num(y)) => x.eq_num(y),
        (Json::Str(x), Json::Str(y)) => *x == *y,
        (Json::Arr(x), Json::Arr(y)) => {
            if x.len() != y.len() {
                assert(a@->Arr_0.len() != b@->Arr_0.len());
                return false;
            }
            let mut i: usize = 0;
            while i < x.len()
                invariant
                    i <= x.len(),
                    x.len() == y.len(),
                    *a == Json::Arr(*x),
                    *b == Json::Arr(*y),
                    forall|j: int| 0 <= j < i ==> json_view(#[trigger] x@[j]) == json_view(y@[j]),
                decreases x.len() - i,
            {
                proof {
                    assert(decreases_to!(*a => x@[i as int]));
                }
                if !json_eq(&x[i], &y[i]) {
                    assert(a@->Arr_0[i as int] != b@->Arr_0[i as int]);
                    return false;
                }
                i += 1;
            }
            assert(a@->Arr_0 =~= b@->Arr_0);
            true
        },
        (Json::Obj(x), Json::Obj(y)) => {
            if x.len() != y.len() {
                assert(a@->Obj_0.len() != b@->Obj_0.len());
                return false;
            }
            let mut i: usize = 0;
            while i < x.len()
                invariant
                    i <= x.len(),
                    x.len() == y.len(),
                    *a == Json::Obj(*x),
                    *b == Json::Obj(*y),
                    forall|j: int|
                        0 <= j < i ==> (#[trigger] x@[j]).0@ == y@[j].0@ && json_view(x@[j].1)
                            == json_view(y@[j].1),
                decreases x.len() - i,
            {
                proof {
                    assert(decreases_to!(*a => x@[i as int].1));
                }
                if x[i].0 != y[i].0 {
                    assert(a@->Obj_0[i as int] != b@->Obj_0[i as int]);
                    return false;
                }
                if !json_eq(&x[i].1, &y[i].1) {
                    assert(a@->Obj_0[i as int] != b@->Obj_0[i as int]);
                    return false;
                }
                i += 1;
            }
            assert(a@->Obj_0 =~= b@->Obj_0);
            true
        },
        _ => false,
    }
}

/// A copy of a value with the same model.
pub fn json_copy(j: &Json) -> (r: Json)
        ensures
            r@ == j@,
        decreases j,
    {
        match j {
            Json::Null => Json::Null,
            Json::Bool(b) => Json::Bool(*b),
            Json::Num(n) => Json::Num(n.copy_num()),
            Json::Str(s) => Json::Str(s.clone()),
            Json::Arr(x) => {
                let mut out: Vec<Json> = Vec::new();
                let mut i: usize = 0;
                while i < x.len()
                    invariant
                        i <= x.len(),
                        out.len() == i,
                        *j == Json::Arr(*x),
                        forall|q: int| 0 <= q < i ==> json_view(#[trigger] out@[q]) == json_view(x@[q]),
                    decreases x.len() - i,
                {
                    proof {
                        assert(decreases_to!(*j => (*j)->Arr_0));
                        assert(decreases_to!(*j => x@[i as int]));
                    }
                    out.push(json_copy(&x[i]));
                    i += 1;
                }
                let r = Json::Arr(out);
                assert(r@->Arr_0 =~= j@->Arr_0);
                r
            },
            Json::Obj(x) => {
                let mut out: Vec<(String, Json)> = Vec::new();
                let mut i: usize = 0;
                while i < x.len()
                    invariant
                        i <= x.len(),
                        out.len() == i,
                        *j == Json::Obj(*x),
                        forall|q: int|
                            0 <= q < i ==> (#[trigger] out@[q]).0@ == x@[q].0@ && json_view(out@[q].1)
                                == json_view(x@[q].1),
                    decreases x.len() - i,
                {
                    proof {
                        assert(decreases_to!(*j => (*j)->Obj_0));
                        assert(decreases_to!(*j => x@[i as int].1));
                    }
                    out.push((x[i].0.clone(), json_copy(&x[i].1)));
                    i += 1;
                }
                let r = Json::Obj(out);
                assert(r@->Obj_0 =~= j@->Obj_0);
                r
            },
        }
    }


impl Json {
    pub fn deep_copy(&self) -> (r: Json)
        ensures
            r@ == self@,
    {
        json_copy(self)
    }
}

} // verus!

verus! {

/// Code-point lexicographic order on character sequences (the order of
/// `String` comparison in Rust, UTF-8 byte order being code-point order).
pub open spec fn seq_lt(a: Seq<char>, b: Seq<char>) -> bool
    decreases a.len(),
{
    if b.len() == 0 {
        false
    } else if a.len() == 0 {
        true
    } else if a[0] != b[0] {
        (a[0] as u32) < (b[0] as u32)
    } else {
        seq_lt(a.drop_first(), b.drop_first())
    }
}

proof fn lemma_seq_lt_skip(a: Seq<char>, b: Seq<char>, i: int)
    requires
        0 <= i <= a.len(),
        i <= b.len(),
        a.take(i) == b.take(i),
    ensures
        seq_lt(a, b) == seq_lt(a.skip(i), b.skip(i)),
    decreases i,
{
    if i > 0 {
        assert(a[0] == a.take(i)[0]);
        assert(b[0] == b.take(i)[0]);
        let a1 = a.drop_first();
        let b1 = b.drop_first();
        assert(a1.take(i - 1) =~= a.take(i).drop_first());
        assert(b1.take(i - 1) =~= b.take(i).drop_first());
        lemma_seq_lt_skip(a1, b1, i - 1);
        assert(a1.skip(i - 1) =~= a.skip(i));
        assert(b1.skip(i - 1) =~= b.skip(i));
    } else {
        assert(a.skip(0) =~= a);
        assert(b.skip(0) =~= b);
    }
}

/// `a < b` on strings.
pub fn str_lt(a: &str, b: &str) -> (r: bool)
    ensures
        r == seq_lt(a@, b@),
{
    let la = a.unicode_len();
    let lb = b.unicode_len();
    let mut i: usize = 0;
    while i < la && i < lb
        invariant
            la == a@.len(),
            lb == b@.len(),
            i <= la,
            i <= lb,
            a@.take(i as int) == b@.take(i as int),
        decreases la - i,
    {
        let ca = a.get_char(i);
        let cb = b.get_char(i);
        if ca != cb {
            proof {
                lemma_seq_lt_skip(a@, b@, i as int);
                assert(a@.skip(i as int)[0] == ca);
                assert(b@.skip(i as int)[0] == cb);
            }
            return (ca as u32) < (cb as u32);
        }
        assert(a@.take(i + 1) =~= a@.take(i as int).push(ca));
        assert(b@.take(i + 1) =~= b@.take(i as int).push(cb));
        i += 1;
    }
    proof {
        lemma_seq_lt_skip(a@, b@, i as int);
    }
    i < lb
}

/// Equality of two strings.
pub fn str_eq(a: &str, b: &str) -> (r: bool)
    ensures
        r == (a@ == b@),
{
    let la = a.unicode_len();
    let lb = b.unicode_len();
    if la != lb {
        return false;
    }
    let mut i: usize = 0;
    while i < la
        invariant
            la == a@.len(),
            lb == b@.len(),
            la == lb,
            i <= la,
            a@.take(i as int) == b@.take(i as int),
        decreases la - i,
    {
        let ca = a.get_char(i);
        let cb = b.get_char(i);
        if ca != cb {
            return false;
        }
        assert(a@.take(i + 1) =~= a@.take(i as int).push(ca));
        assert(b@.take(i + 1) =~= b@.take(i as int).push(cb));
        i += 1;
    }
    assert(a@ =~= a@.take(la as int));
    assert(b@ =~= b@.take(lb as int));
    true
}

/// Index of the first field named `k`, scanning from `i`.
pub open spec fn find_from(fs: Seq<(Seq<char>, JVal)>, k: Seq<char>, i: int) -> Option<int>
    decreases fs.len() - i,
{
    if i < 0 || i >= fs.len() {
        None
    } else if fs[i].0 == k {
        Some(i)
    } else {
        find_from(fs, k, i + 1)
    }
}

/// Index of the first field named `k`.
pub open spec fn find_key(fs: Seq<(Seq<char>, JVal)>, k: Seq<char>) -> Option<int> {
    find_from(fs, k, 0)
}

pub proof fn lemma_find_from(fs: Seq<(Seq<char>, JVal)>, k: Seq<char>, i: int)
    requires
        0 <= i,
    ensures
        find_from(fs, k, i) matches Some(j) ==> i <= j < fs.len() && fs[j].0 == k,
        find_from(fs, k, i) matches Some(j) ==> forall|m: int| i <= m < j ==> fs[m].0 != k,
        find_from(fs, k, i) is None ==> forall|j: int| i <= j < fs.len() ==> fs[j].0 != k,
    decreases fs.len() - i,
{
    if i < fs.len() && fs[i].0 != k {
        lemma_find_from(fs, k, i + 1);
    }
}

pub proof fn lemma_find_first(s: Seq<(Seq<char>, JVal)>, k: Seq<char>, j: int, i: int)
    requires
        0 <= i <= j < s.len(),
        s[j].0 == k,
        forall|m: int| 0 <= m < j ==> s[m].0 != k,
    ensures
        find_from(s, k, i) == Some(j),
    decreases j - i,
{
    if i < j {
        lemma_find_first(s, k, j, i + 1);
    }
}

pub proof fn lemma_find_none(s: Seq<(Seq<char>, JVal)>, k: Seq<char>, i: int)
    requires
        0 <= i,
        forall|m: int| 0 <= m < s.len() ==> s[m].0 != k,
    ensures
        find_from(s, k, i) is None,
    decreases s.len() - i,
{
    if i < s.len() {
        lemma_find_none(s, k, i + 1);
    }
}

/// The keys of an object, in order.
pub open spec fn keys_of(fs: Seq<(Seq<char>, JVal)>) -> Seq<Seq<char>> {
    fs.map_values(|e: (Seq<char>, JVal)| e.0)
}

} // verus!

verus! {

pub open spec fn arr_view(x: Seq<Json>) -> Seq<JVal> {
    Seq::new(x.len(), |i: int| json_view(x[i]))
}

pub open spec fn fields_view(x: Seq<(String, Json)>) -> Seq<(Seq<char>, JVal)> {
    Seq::new(x.len(), |i: int| (x[i].0@, json_view(x[i].1)))
}

pub broadcast proof fn lemma_arr_view(x: Vec<Json>)
    ensures
        #[trigger] json_view(Json::Arr(x)) == JVal::Arr(arr_view(x@)),
{
    assert(json_view(Json::Arr(x))->Arr_0 =~= arr_view(x@));
}

pub broadcast proof fn lemma_fields_view(x: Vec<(String, Json)>)
    ensures
        #[trigger] json_view(Json::Obj(x)) == JVal::Obj(fields_view(x@)),
{
    assert(json_view(Json::Obj(x))->Obj_0 =~= fields_view(x@));
}

} // verus!

verus! {

/// Position of the field named `k` in an object's field list.
pub fn field_index(fs: &Vec<(String, Json)>, k: &str) -> (r: Option<usize>)
    ensures
        r matches Some(i) ==> Some(i as int) == find_key(fields_view(fs@), k@) && i < fs.len(),
        r is None ==> find_key(fields_view(fs@), k@) is None,
{
    let ghost s = fields_view(fs@);
    let mut i: usize = 0;
    while i < fs.len()
        invariant
            i <= fs.len(),
            s == fields_view(fs@),
            s.len() == fs.len(),
            find_from(s, k@, 0) == find_from(s, k@, i as int),
        decreases fs.len() - i,
    {
        assert(s[i as int].0 == fs@[i as int].0@);
        if str_eq(fs[i].0.as_str(), k) {
            return Some(i);
        }
        i += 1;
    }
    None
}

} // verus!

verus! {

pub open spec fn hex_digit(d: nat) -> char {
    if d < 10 {
        crate::text::digit_char(d)
    } else if d == 10 {
        'a'
    } else if d == 11 {
        'b'
    } else if d == 12 {
        'c'
    } else if d == 13 {
        'd'
    } else if d == 14 {
        'e'
    } else {
        'f'
    }
}

/// How the document writer escapes one character inside a string.
pub open spec fn esc_char(c: char) -> Seq<char> {
    if c == '"' {
        seq!['\\', '"']
    } else if c == '\\' {
        seq!['\\', '\\']
    } else if c == '\n' {
        seq!['\\', 'n']
    } else if c == '\r' {
        seq!['\\', 'r']
    } else if c == '\t' {
        seq!['\\', 't']
    } else if c == '\x08' {
        seq!['\\', 'b']
    } else if c == '\x0c' {
        seq!['\\', 'f']
    } else if (c as u32) < 0x20 {
        seq!['\\', 'u', '0', '0', hex_digit((c as u32 / 16) as nat), hex_digit((c as u32 % 16) as nat)]
    } else {
        seq![c]
    }
}

pub open spec fn esc_str(s: Seq<char>) -> Seq<char>
    decreases s.len(),
{
    if s.len() == 0 {
        Seq::empty()
    } else {
        esc_str(s.drop_last()) + esc_char(s.last())
    }
}

/// A string as a JSON string literal.
pub open spec fn quoted(s: Seq<char>) -> Seq<char> {
    seq!['"'] + esc_str(s) + seq!['"']
}

pub open spec fn num_text(n: NumV) -> Seq<char> {
    match n {
        NumV::PosInt(u) => crate::text::dec(u as nat),
        NumV::NegInt(i) => if i < 0 {
            seq!['-'] + crate::text::dec((-(i as int)) as nat)
        } else {
            crate::text::dec(i as nat)
        },
        NumV::Float(t) => t,
    }
}

/// Parts separated by commas.
pub open spec fn join(parts: Seq<Seq<char>>) -> Seq<char>
    decreases parts.len(),
{
    if parts.len() == 0 {
        Seq::empty()
    } else if parts.len() == 1 {
        parts[0]
    } else {
        join(parts.drop_last()) + seq![','] + parts.last()
    }
}

/// The compact text of a JSON value, as the document writer prints it.
pub open spec fn json_text(j: JVal) -> Seq<char>
    decreases j, 1int,
{
    match j {
        JVal::Null => "null"@,
        JVal::Bool(b) => if b {
            "true"@
        } else {
            "false"@
        },
        JVal::Num(n) => num_text(n),
        JVal::Str(s) => quoted(s),
        JVal::Arr(s) => seq!['['] + join(item_texts(s)) + seq![']'],
        JVal::Obj(fs) => seq!['{'] + join(member_texts(fs)) + seq!['}'],
    }
}

/// The texts of array items, in order.
pub open spec fn item_texts(s: Seq<JVal>) -> Seq<Seq<char>>
    decreases s, 0int,
{
    if s.len() == 0 {
        Seq::empty()
    } else {
        item_texts(s.drop_last()).push(json_text(s.last()))
    }
}

/// The texts of object members (`"key":value`), in order.
pub open spec fn member_texts(fs: Seq<(Seq<char>, JVal)>) -> Seq<Seq<char>>
    decreases fs, 0int,
{
    if fs.len() == 0 {
        Seq::empty()
    } else {
        member_texts(fs.drop_last()).push(quoted(fs.last().0) + seq![':'] + json_text(fs.last().1))
    }
}

fn hex_str(d: u32) -> (r: &'static str)
    requires
        d < 16,
    ensures
        r@ == seq![hex_digit(d as nat)],
{
    proof {
        reveal_strlit("0");
        reveal_strlit("1");
        reveal_strlit("2");
        reveal_strlit("3");
        reveal_strlit("4");
        reveal_strlit("5");
        reveal_strlit("6");
        reveal_strlit("7");
        reveal_strlit("8");
        reveal_strlit("9");
        reveal_strlit("a");
        reveal_strlit("b");
        reveal_strlit("c");
        reveal_strlit("d");
        reveal_strlit("e");
        reveal_strlit("f");
    }
    let r = if d == 0 {
        "0"
    } else if d == 1 {
        "1"
    } else if d == 2 {
        "2"
    } else if d == 3 {
        "3"
    } else if d == 4 {
        "4"
    } else if d == 5 {
        "5"
    } else if d == 6 {
        "6"
    } else if d == 7 {
        "7"
    } else if d == 8 {
        "8"
    } else if d == 9 {
        "9"
    } else if d == 10 {
        "a"
    } else if d == 11 {
        "b"
    } else if d == 12 {
        "c"
    } else if d == 13 {
        "d"
    } else if d == 14 {
        "e"
    } else {
        "f"
    };
    assert(r@ =~= seq![hex_digit(d as nat)]);
    r
}

/// Appends the escaped form of `s`.
pub fn push_escaped(out: &mut String, s: &str)
    ensures
        final(out)@ == old(out)@ + esc_str(s@),
{
    let ghost o0 = out@;
    let n = s.unicode_len();
    let mut i: usize = 0;
    while i < n
        invariant
            n == s@.len(),
            i <= n,
            out@ == o0 + esc_str(s@.take(i as int)),
        decreases n - i,
    {
        let c = s.get_char(i);
        let ghost before = out@;
        proof {
            reveal_strlit("\\\"");
            reveal_strlit("\\\\");
            reveal_strlit("\\n");
            reveal_strlit("\\r");
            reveal_strlit("\\t");
            reveal_strlit("\\b");
            reveal_strlit("\\f");
            reveal_strlit("\\u00");
        }
        if c == '"' {
            out.append("\\\"");
        } else if c == '\\' {
            out.append("\\\\");
        } else if c == '\n' {
            out.append("\\n");
        } else if c == '\r' {
            out.append("\\r");
        } else if c == '\t' {
            out.append("\\t");
        } else if c == '\x08' {
            out.append("\\b");
        } else if c == '\x0c' {
            out.append("\\f");
        } else if (c as u32) < 0x20 {
            out.append("\\u00");
            out.append(hex_str(c as u32 / 16));
            out.append(hex_str(c as u32 % 16));
        } else {
            out.append(s.substring_char(i, i + 1));
        }
        assert(out@ =~= before + esc_char(c));
        assert(s@.take(i + 1).drop_last() =~= s@.take(i as int));
        i += 1;
    }
    assert(s@.take(n as int) =~= s@);
}

/// Appends the text of `j`.
pub fn write_json(j: &Json, out: &mut String)
    ensures
        final(out)@ == old(out)@ + json_text(j@),
    decreases j,
{
    let ghost o0 = out@;
    proof {
        reveal_strlit("null");
        reveal_strlit("true");
        reveal_strlit("false");
        reveal_strlit("\"");
        reveal_strlit("-");
        reveal_strlit("[");
        reveal_strlit("]");
        reveal_strlit("{");
        reveal_strlit("}");
        reveal_strlit(",");
        reveal_strlit(":");
    }
    match j {
        Json::Null => {
            out.append("null");
            assert(json_text(j@) == "null"@);
        },
        Json::Bool(b) => {
            if *b {
                out.append("true");
            } else {
                out.append("false");
            }
        },
        Json::Num(n) => {
            match n {
                JNum::PosInt(u) => {
                    crate::text::push_dec(out, *u);
                },
                JNum::NegInt(i) => {
                    if *i < 0 {
                        out.append("-");
                        let u: u64 = if *i == i64::MIN {
                            9223372036854775808u64
                        } else {
                            (-*i) as u64
                        };
                        crate::text::push_dec(out, u);
                    } else {
                        crate::text::push_dec(out, *i as u64);
                    }
                },
                JNum::Float(t) => {
                    out.append(t.as_str());
                },
            }
        },
        Json::Str(s) => {
            out.append("\"");
            push_escaped(out, s.as_str());
            out.append("\"");
            assert(out@ =~= o0 + json_text(j@));
        },
        Json::Arr(x) => {
            let ghost av = arr_view(x@);
            proof {
                lemma_arr_view(*x);
            }
            out.append("[");
            let mut i: usize = 0;
            while i < x.len()
                invariant
                    i <= x.len(),
                    *j == Json::Arr(*x),
                    av == arr_view(x@),
                    out@ == o0 + seq!['['] + join(item_texts(av.take(i as int))),
                decreases x.len() - i,
            {
                proof {
                    assert(decreases_to!(*j => (*j)->Arr_0));
                    assert(decreases_to!(*j => x@[i as int]));
                    reveal_strlit(",");
                }
                let ghost before = out@;
                let ghost pi = item_texts(av.take(i + 1));
                assert(av.take(i + 1).drop_last() =~= av.take(i as int));
                assert(av.take(i + 1).last() == x@[i as int]@);
                assert(pi == item_texts(av.take(i as int)).push(json_text(x@[i as int]@)));
                if i > 0 {
                    out.append(",");
                }
                write_json(&x[i], out);
                if i == 0 {
                    assert(item_texts(av.take(0)) =~= Seq::<Seq<char>>::empty());
                    assert(join(pi) == pi[0]);
                    assert(out@ =~= o0 + seq!['['] + join(pi));
                } else {
                    assert(pi.drop_last() =~= item_texts(av.take(i as int)));
                    assert(join(pi) == join(item_texts(av.take(i as int))) + seq![','] + pi.last());
                    assert(out@ =~= o0 + seq!['['] + join(pi));
                }
                i += 1;
            }
            assert(av.take(x.len() as int) =~= av);
            out.append("]");
            proof {
                reveal_strlit("]");
            }
            assert(out@ =~= o0 + json_text(j@));
        },
        Json::Obj(x) => {
            let ghost fv = fields_view(x@);
            proof {
                lemma_fields_view(*x);
            }
            out.append("{");
            let mut i: usize = 0;
            while i < x.len()
                invariant
                    i <= x.len(),
                    *j == Json::Obj(*x),
                    fv == fields_view(x@),
                    out@ == o0 + seq!['{'] + join(member_texts(fv.take(i as int))),
                decreases x.len() - i,
            {
                proof {
                    assert(decreases_to!(*j => (*j)->Obj_0));
                    assert(decreases_to!(*j => x@[i as int].1));
                    reveal_strlit(",");
                    reveal_strlit("\"");
                    reveal_strlit(":");
                }
                let ghost pi = member_texts(fv.take(i + 1));
                assert(fv.take(i + 1).drop_last() =~= fv.take(i as int));
                assert(fv.take(i + 1).last() == (x@[i as int].0@, x@[i as int].1@));
                assert(pi == member_texts(fv.take(i as int)).push(
                    quoted(x@[i as int].0@) + seq![':'] + json_text(x@[i as int].1@),
                ));
                if i > 0 {
                    out.append(",");
                }
                let ghost mid = out@;
                out.append("\"");
                push_escaped(out, x[i].0.as_str());
                out.append("\"");
                out.append(":");
                write_json(&x[i].1, out);
                assert(out@ =~= mid + pi.last());
                if i == 0 {
                    assert(member_texts(fv.take(0)) =~= Seq::<Seq<char>>::empty());
                    assert(join(pi) == pi[0]);
                    assert(out@ =~= o0 + seq!['{'] + join(pi));
                } else {
                    assert(pi.drop_last() =~= member_texts(fv.take(i as int)));
                    assert(join(pi) == join(member_texts(fv.take(i as int))) + seq![','] + pi.last());
                    assert(out@ =~= o0 + seq!['{'] + join(pi));
                }
                i += 1;
            }
            assert(fv.take(x.len() as int) =~= fv);
            out.append("}");
            proof {
                reveal_strlit("}");
            }
            assert(out@ =~= o0 + json_text(j@));
        },
    }
}

/// The compact text of `j`.
pub fn json_to_text(j: &Json) -> (r: String)
    ensures
        r@ == json_text(j@),
{
    let mut s = String::new();
    write_json(j, &mut s);
    assert(s@ =~= json_text(j@));
    s
}

} // verus!
