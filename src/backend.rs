use vstd::prelude::*;

verus! {

/// The byte that separates backend addresses in a list.
pub const COMMA: u8 = 44;

/// One upstream address, kept as the bytes of its `host:port` text.
pub struct Backend {
    pub addr: Vec<u8>,
}

impl View for Backend {
    type V = Seq<u8>;

    open spec fn view(&self) -> Seq<u8> {
        self.addr@
    }
}

impl Backend {
    pub fn new(addr: Vec<u8>) -> (r: Backend)
        ensures
            r@ == addr@,
    {
        Backend { addr }
    }

    /// A second backend with the same address.
    pub fn duplicate(&self) -> (r: Backend)
        ensures
            r@ == self@,
    {
        let mut out: Vec<u8> = Vec::new();
        let mut i: usize = 0;
        while i < self.addr.len()
            invariant
                i <= self.addr@.len(),
                out@ == self.addr@.subrange(0, i as int),
            decreases self.addr@.len() - i,
        {
            out.push(self.addr[i]);
            i = i + 1;
        }
        assert(out@ =~= self.addr@);
        Backend { addr: out }
    }

    pub fn as_bytes(&self) -> (r: &[u8])
        ensures
            r@ == self@,
    {
        self.addr.as_slice()
    }
}

/// Why a configuration cannot give a backend pool.
#[derive(Debug, Clone, Copy, PartialEq, Eq, Structural)]
pub enum ConfigError {
    /// The address list holds no backend at all.
    EmptyPool,
    /// The list holds an empty entry (an empty text, or two commas in a row).
    EmptyAddress,
}

pub open spec fn addrs_of(bs: Seq<Backend>) -> Seq<Seq<u8>> {
    bs.map_values(|b: Backend| b@)
}

/// The fields of `s` between its commas: `"a,b"` gives `["a", "b"]`, and the
/// empty text gives one empty field.
pub open spec fn fields_of(s: Seq<u8>) -> Seq<Seq<u8>>
    decreases s.len(),
{
    if s.len() == 0 {
        seq![Seq::<u8>::empty()]
    } else {
        let prev = fields_of(s.drop_last());
        if s.last() == COMMA {
            prev.push(Seq::<u8>::empty())
        } else {
            prev.update(prev.len() - 1, prev.last().push(s.last()))
        }
    }
}

pub proof fn lemma_fields_nonempty(s: Seq<u8>)
    ensures
        fields_of(s).len() >= 1,
    decreases s.len(),
{
    if s.len() > 0 {
        lemma_fields_nonempty(s.drop_last());
    }
}

/// Every field is free of commas.
pub proof fn lemma_fields_have_no_comma(s: Seq<u8>)
    ensures
        forall|k: int, j: int|
            0 <= k < fields_of(s).len() && 0 <= j < fields_of(s)[k].len()
                ==> fields_of(s)[k][j] != COMMA,
    decreases s.len(),
{
    if s.len() > 0 {
        lemma_fields_have_no_comma(s.drop_last());
        lemma_fields_nonempty(s.drop_last());
    }
}

/// Splits `s` at each comma.
pub fn split_fields(s: &[u8]) -> (r: Vec<Backend>)
    ensures
        addrs_of(r@) == fields_of(s@),
{
    let mut out: Vec<Backend> = Vec::new();
    let mut cur: Vec<u8> = Vec::new();
    let mut i: usize = 0;
    assert(s@.subrange(0, 0) =~= Seq::<u8>::empty());
    assert(addrs_of(out@).push(cur@) =~= fields_of(s@.subrange(0, 0)));
    while i < s.len()
        invariant
            i <= s@.len(),
            addrs_of(out@).push(cur@) == fields_of(s@.subrange(0, i as int)),
        decreases s@.len() - i,
    {
        let c = s[i];
        let ghost pre = s@.subrange(0, i as int);
        let ghost next = s@.subrange(0, i + 1);
        assert(next.drop_last() =~= pre);
        assert(next.last() == c);
        if c == COMMA {
            let done = Backend { addr: cur };
            out.push(done);
            cur = Vec::new();
            assert(addrs_of(out@).push(cur@) =~= fields_of(pre).push(Seq::<u8>::empty()));
        } else {
            cur.push(c);
            assert(addrs_of(out@).push(cur@) =~= fields_of(pre).update(
                fields_of(pre).len() - 1,
                fields_of(pre).last().push(c),
            ));
        }
        i = i + 1;
    }
    assert(s@.subrange(0, s@.len() as int) =~= s@);
    let last = Backend { addr: cur };
    out.push(last);
    assert(addrs_of(out@) =~= fields_of(s@));
    out
}

/// The addresses of a comma-separated backend list: `Ok` with one backend per
/// field, in order, exactly when no field is empty.
pub fn parse_upstreams(s: &[u8]) -> (r: Result<Vec<Backend>, ConfigError>)
    ensures
        match r {
            Ok(v) => addrs_of(v@) == fields_of(s@) && v@.len() >= 1,
            Err(e) => e == ConfigError::EmptyAddress,
        },
        r.is_ok() <==> (forall|k: int|
            0 <= k < fields_of(s@).len() ==> #[trigger] fields_of(s@)[k].len() > 0),
{
    let v = split_fields(s);
    proof {
        lemma_fields_nonempty(s@);
    }
    let mut i: usize = 0;
    while i < v.len()
        invariant
            i <= v@.len(),
            addrs_of(v@) == fields_of(s@),
            forall|k: int| 0 <= k < i ==> #[trigger] fields_of(s@)[k].len() > 0,
        decreases v@.len() - i,
    {
        assert(addrs_of(v@)[i as int] == v@[i as int]@);
        if v[i].addr.len() == 0 {
            return Err(ConfigError::EmptyAddress);
        }
        i = i + 1;
    }
    Ok(v)
}

} // verus!
