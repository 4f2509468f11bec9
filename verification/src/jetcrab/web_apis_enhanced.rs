//! Browser storage, XMLHttpRequest and WebSocket state.
use vstd::prelude::*;
use crate::strmap::StrMap;
use crate::text::owned;

verus! {

/// Number of UTF-8 bytes of a string.
pub open spec fn utf8_len(s: Seq<char>) -> nat {
    vstd::utf8::encode_utf8(s).len()
}

/// State of a WebSocket connection.
#[derive(Debug, Clone, Copy, PartialEq, Eq, Structural)]
pub enum WebSocketState {
    /// Connecting.
    Connecting,
    /// Open.
    Open,
    /// Closing.
    Closing,
    /// Closed.
    Closed,
}

/// A WebSocket message.
#[derive(Debug, Clone)]
pub enum WebSocketMessage {
    /// Text.
    Text(String),
    /// Bytes.
    Binary(Vec<u8>),
}

/// The state of a WebSocket connection; messages can be sent only when it is open.
#[derive(Debug)]
pub struct WebSocket {
    /// URL of the connection.
    pub url: String,
    /// Connection state.
    pub state: WebSocketState,
}

impl WebSocket {
    /// A connection to `url`, connecting.
    pub fn new(url: &str) -> (w: Self)
        ensures
            w.url@ == url@,
            w.state == WebSocketState::Connecting,
    {
        WebSocket { url: owned(url), state: WebSocketState::Connecting }
    }

    /// Sends a text message: an error unless the connection is open.
    pub fn send_text(&mut self, message: &str) -> (r: Result<(), String>)
        ensures
            *final(self) == *old(self),
            r is Ok <==> old(self).state == WebSocketState::Open,
            r matches Err(e) ==> e@ == "WebSocket is not open"@,
    {
        if self.state != WebSocketState::Open {
            return Err(owned("WebSocket is not open"));
        }
        Ok(())
    }

    /// Sends a binary message: an error unless the connection is open.
    pub fn send_binary(&mut self, data: &[u8]) -> (r: Result<(), String>)
        ensures
            *final(self) == *old(self),
            r is Ok <==> old(self).state == WebSocketState::Open,
            r matches Err(e) ==> e@ == "WebSocket is not open"@,
    {
        if self.state != WebSocketState::Open {
            return Err(owned("WebSocket is not open"));
        }
        Ok(())
    }

    /// Closes the connection.
    pub fn close(&mut self)
        ensures
            final(self).state == WebSocketState::Closed,
            final(self).url == old(self).url,
    {
        self.state = WebSocketState::Closing;
        self.state = WebSocketState::Closed;
    }

    /// The connection state.
    pub fn state(&self) -> (r: &WebSocketState)
        ensures
            *r == self.state,
    {
        &self.state
    }
}

/// Bytes of the values of the first `k` keys of `ks` in `m`.
pub open spec fn bytes_upto(ks: Seq<Seq<char>>, m: Map<Seq<char>, Seq<char>>, k: int) -> int
    decreases k,
{
    if k <= 0 {
        0
    } else {
        bytes_upto(ks, m, k - 1) + utf8_len(m[ks[k - 1]])
    }
}

/// Bytes of all the values of a string map.
pub open spec fn total_bytes(d: StrMap<String>) -> int {
    bytes_upto(d.key_seq(), d.sview(), d.key_seq().len() as int)
}

/// Sums over a concatenation add up.
proof fn lemma_bytes_concat(a: Seq<Seq<char>>, b: Seq<Seq<char>>, m: Map<Seq<char>, Seq<char>>, j: int)
    requires
        0 <= j <= b.len(),
    ensures
        bytes_upto(a + b, m, a.len() + j) == bytes_upto(a, m, a.len() as int) + bytes_upto(b, m, j),
    decreases j,
{
    if j > 0 {
        lemma_bytes_concat(a, b, m, j - 1);
        assert((a + b)[a.len() + j - 1] == b[j - 1]);
    } else {
        lemma_bytes_frame(a + b, a, m, m, a.len() as int);
    }
}

/// Sums agree where keys and their values agree.
proof fn lemma_bytes_frame(a: Seq<Seq<char>>, b: Seq<Seq<char>>, m1: Map<Seq<char>, Seq<char>>, m2: Map<Seq<char>, Seq<char>>, k: int)
    requires
        0 <= k <= a.len(),
        k <= b.len(),
        forall|i: int| 0 <= i < k ==> a[i] == b[i] && m1[a[i]] == m2[b[i]],
    ensures
        bytes_upto(a, m1, k) == bytes_upto(b, m2, k),
    decreases k,
{
    if k > 0 {
        lemma_bytes_frame(a, b, m1, m2, k - 1);
    }
}

/// Partial sums are not negative and grow.
proof fn lemma_bytes_mono(ks: Seq<Seq<char>>, m: Map<Seq<char>, Seq<char>>, j: int, k: int)
    requires
        0 <= j <= k,
    ensures
        0 <= bytes_upto(ks, m, j) <= bytes_upto(ks, m, k),
    decreases k,
{
    if k > j {
        lemma_bytes_mono(ks, m, j, k - 1);
    } else if k > 0 {
        lemma_bytes_mono(ks, m, 0, k - 1);
    }
}

/// One key's bytes within the whole sum.
proof fn lemma_bytes_split(ks: Seq<Seq<char>>, m: Map<Seq<char>, Seq<char>>, i: int)
    requires
        0 <= i < ks.len(),
    ensures
        bytes_upto(ks, m, ks.len() as int) == bytes_upto(ks.take(i), m, i) + utf8_len(m[ks[i]])
            + bytes_upto(ks.skip(i + 1), m, ks.len() - i - 1),
{
    let a = ks.take(i + 1);
    let b = ks.skip(i + 1);
    assert(ks =~= a + b);
    lemma_bytes_concat(a, b, m, b.len() as int);
    assert(a.take(i) =~= ks.take(i));
    lemma_bytes_frame(a, ks.take(i), m, m, i);
}

/// Browser local storage: string items within a quota of 5 MiB of values.
#[derive(Debug)]
pub struct LocalStorage {
    data: StrMap<String>,
    max_size: usize,
}

impl LocalStorage {
    /// The values fit in the quota.
    #[verifier::type_invariant]
    closed spec fn inv(&self) -> bool {
        &&& self.max_size == 5 * 1024 * 1024
        &&& total_bytes(self.data) <= self.max_size
    }

    /// The stored items.
    pub closed spec fn items(&self) -> Map<Seq<char>, Seq<char>> {
        self.data.sview()
    }

    /// The keys in the order they were first set.
    pub closed spec fn key_order(&self) -> Seq<Seq<char>> {
        self.data.key_seq()
    }

    /// Bytes used by the values.
    pub closed spec fn used(&self) -> int {
        total_bytes(self.data)
    }

    /// The quota in bytes.
    pub open spec fn quota() -> int {
        5242880int
    }

    /// An empty storage.
    pub fn new() -> (s: Self)
        ensures
            s.items() == Map::<Seq<char>, Seq<char>>::empty(),
            s.key_order().len() == 0,
            s.used() == 0,
    {
        let s = LocalStorage { data: StrMap::new(), max_size: 5 * 1024 * 1024 };
        assert(s.items() =~= Map::<Seq<char>, Seq<char>>::empty());
        s
    }

    /// A copy of the item under `key`.
    pub fn get_item(&self, key: &str) -> (r: Option<String>)
        ensures
            match r {
                Some(v) => self.items().contains_key(key@) && v@ == self.items()[key@],
                None => !self.items().contains_key(key@),
            },
    {
        match self.data.get_str(key) {
            Some(v) => Some(v.clone()),
            None => None,
        }
    }

    /// Bytes used by the values.
    pub fn size(&self) -> (n: usize)
        ensures
            n == self.used(),
    {
        proof {
            use_type_invariant(self);
            use_type_invariant(&self.data);
            self.data.lemma_keys();
        }
        let len = self.data.len();
        let mut acc: usize = 0;
        let mut i: usize = 0;
        while i < len
            invariant
                i <= len,
                len == self.data.key_seq().len(),
                self.inv(),
                acc == bytes_upto(self.data.key_seq(), self.data.sview(), i as int),
            decreases len - i,
        {
            let v = self.data.value_at(i);
            proof {
                lemma_bytes_mono(self.data.key_seq(), self.data.sview(), i + 1, len as int);
                self.data.lemma_key_seq_in_dom();
                assert(self.data@.dom().contains(self.data.key_seq()[i as int]));
                assert(v@ == self.data.sview()[self.data.key_seq()[i as int]]);
            }
            let n = v.as_str().len();
            acc = acc + n;
            i = i + 1;
        }
        acc
    }

    /// Sets an item, unless the values would then take more than the quota.
    pub fn set_item(&mut self, key: &str, value: &str) -> (r: Result<(), String>)
        requires
            utf8_len(value@) <= isize::MAX,
        ensures
            ({
                let ex = if old(self).items().contains_key(key@) {
                    utf8_len(old(self).items()[key@]) as int
                } else {
                    0
                };
                let ns = old(self).used() + utf8_len(value@) - ex;
                &&& (r is Ok <==> ns <= Self::quota())
                &&& r is Ok ==> final(self).items() == old(self).items().insert(key@, value@) && final(self).used() == ns
                &&& r is Err ==> final(self).items() == old(self).items() && final(self).used() == old(self).used()
                    && final(self).key_order() == old(self).key_order()
                &&& r matches Err(e) ==> e@ == "LocalStorage quota exceeded"@
            }),
    {
        proof {
            use_type_invariant(&*self);
            use_type_invariant(&self.data);
            self.data.lemma_keys();
        }
        let current = self.size();
        let vlen = value.len();
        let ghost ks = self.data.key_seq();
        let ghost m = self.data.sview();
        let existing = match self.data.get_str(key) {
            Some(v) => {
                proof {
                    assert(self.data@.dom().contains(key@));
                    assert(ks.contains(key@));
                    let i = choose|i: int| 0 <= i < ks.len() && ks[i] == key@;
                    lemma_bytes_split(ks, m, i);
                    lemma_bytes_mono(ks.take(i), m, 0, i);
                    lemma_bytes_mono(ks.skip(i + 1), m, 0, ks.len() - i - 1);
                }
                v.as_str().len()
            },
            None => 0,
        };
        let new_size = current + vlen - existing;
        if new_size > self.max_size {
            return Err(owned("LocalStorage quota exceeded"));
        }
        proof {
            assert(self.data.sview().dom() =~= self.data@.dom());
            assert(forall|k: Seq<char>| m.contains_key(k) <==> ks.contains(k));
        }
        let ghost contained = m.contains_key(key@);
        let mut data = StrMap::new();
        std::mem::swap(&mut data, &mut self.data);
        data.set_str(key, value);
        proof {
            let m2 = data.sview();
            let ks2 = data.key_seq();
            if contained {
                assert(ks.contains(key@));
                let i = choose|i: int| 0 <= i < ks.len() && ks[i] == key@;
                lemma_bytes_split(ks, m, i);
                lemma_bytes_split(ks2, m2, i);
                assert forall|j: int| 0 <= j < i implies #[trigger] ks.take(i)[j] == ks2.take(i)[j] && m[ks.take(i)[j]] == m2[ks2.take(i)[j]] by {
                    assert(ks[j] != ks[i]);
                }
                lemma_bytes_frame(ks.take(i), ks2.take(i), m, m2, i);
                assert forall|j: int| 0 <= j < ks.len() - i - 1 implies #[trigger] ks.skip(i + 1)[j] == ks2.skip(i + 1)[j] && m[ks.skip(i + 1)[j]] == m2[ks2.skip(i + 1)[j]] by {
                    assert(ks[i + 1 + j] != ks[i]);
                }
                lemma_bytes_frame(ks.skip(i + 1), ks2.skip(i + 1), m, m2, ks.len() - i - 1);
            } else {
                assert(!ks.contains(key@));
                assert(ks2 == ks.push(key@));
                assert forall|j: int| 0 <= j < ks.len() implies #[trigger] ks[j] == ks2[j] && m[ks[j]] == m2[ks2[j]] by {
                    assert(ks.contains(ks[j]));
                }
                lemma_bytes_frame(ks, ks2, m, m2, ks.len() as int);
            }
        }
        self.data = data;
        Ok(())
    }

    /// Removes the item under `key` and returns it.
    pub fn remove_item(&mut self, key: &str) -> (r: Option<String>)
        ensures
            final(self).items() == old(self).items().remove(key@),
            match r {
                Some(v) => old(self).items().contains_key(key@) && v@ == old(self).items()[key@],
                None => !old(self).items().contains_key(key@),
            },
    {
        proof {
            use_type_invariant(&*self);
            use_type_invariant(&self.data);
            self.data.lemma_keys();
        }
        let ghost ks = self.data.key_seq();
        let ghost m = self.data.sview();
        let mut data = StrMap::new();
        std::mem::swap(&mut data, &mut self.data);
        let r = data.remove(key);
        proof {
            let m2 = data.sview();
            let ks2 = data.key_seq();
            assert(m2 =~= m.remove(key@));
            if r is Some {
                let i = choose|i: int| 0 <= i < ks.len() && ks[i] == key@ && ks2 == ks.remove(i);
                lemma_bytes_split(ks, m, i);
                lemma_bytes_mono(ks.skip(i + 1), m, 0, ks.len() - i - 1);
                assert(ks2 =~= ks.take(i) + ks.skip(i + 1));
                lemma_bytes_concat(ks.take(i), ks.skip(i + 1), m2, ks.len() - i - 1);
                assert forall|j: int| 0 <= j < i implies #[trigger] ks.take(i)[j] == ks.take(i)[j] && m2[ks.take(i)[j]] == m[ks.take(i)[j]] by {
                    assert(ks[j] != ks[i]);
                }
                lemma_bytes_frame(ks.take(i), ks.take(i), m2, m, i);
                assert forall|j: int| 0 <= j < ks.len() - i - 1 implies #[trigger] ks.skip(i + 1)[j] == ks.skip(i + 1)[j] && m2[ks.skip(i + 1)[j]] == m[ks.skip(i + 1)[j]] by {
                    assert(ks[i + 1 + j] != ks[i]);
                }
                lemma_bytes_frame(ks.skip(i + 1), ks.skip(i + 1), m2, m, ks.len() - i - 1);
            } else {
                assert(m2 =~= m);
                lemma_bytes_frame(ks, ks2, m, m2, ks.len() as int);
            }
        }
        self.data = data;
        match r {
            Some(v) => Some(v),
            None => None,
        }
    }

    /// Removes every item.
    pub fn clear(&mut self)
        ensures
            final(self).items() == Map::<Seq<char>, Seq<char>>::empty(),
            final(self).used() == 0,
    {
        proof {
            use_type_invariant(&*self);
        }
        let mut data = StrMap::new();
        std::mem::swap(&mut data, &mut self.data);
        data.clear();
        assert(data.sview() =~= Map::<Seq<char>, Seq<char>>::empty());
        self.data = data;
    }

    /// Number of items.
    pub fn length(&self) -> (n: usize)
        ensures
            n == self.items().dom().len(),
            n == self.key_order().len(),
    {
        proof {
            use_type_invariant(&self.data);
            self.data.lemma_keys();
            assert(self.data.sview().dom() =~= self.data@.dom());
        }
        self.data.len()
    }

    /// The key at `index` in key order.
    pub fn key(&self, index: usize) -> (r: Option<String>)
        ensures
            index < self.key_order().len() ==> (r matches Some(k) && k@ == self.key_order()[index as int]),
            index >= self.key_order().len() ==> r is None,
    {
        proof {
            use_type_invariant(&self.data);
            self.data.lemma_keys();
        }
        if index < self.data.len() {
            Some(self.data.key_at(index).clone())
        } else {
            None
        }
    }

    /// All keys in key order.
    pub fn keys(&self) -> (r: Vec<String>)
        ensures
            r@.len() == self.key_order().len(),
            forall|i: int| 0 <= i < r@.len() ==> #[trigger] r@[i]@ == self.key_order()[i],
    {
        proof {
            use_type_invariant(&self.data);
            self.data.lemma_keys();
        }
        let n = self.data.len();
        let mut out: Vec<String> = Vec::new();
        let mut i: usize = 0;
        while i < n
            invariant
                i <= n,
                n == self.key_order().len(),
                out@.len() == i,
                forall|j: int| 0 <= j < i ==> #[trigger] out@[j]@ == self.key_order()[j],
            decreases n - i,
        {
            out.push(self.data.key_at(i).clone());
            i = i + 1;
        }
        out
    }
}

/// Browser session storage: string items without a quota.
#[derive(Debug)]
pub struct SessionStorage {
    data: StrMap<String>,
}

impl SessionStorage {
    /// The stored items.
    pub closed spec fn items(&self) -> Map<Seq<char>, Seq<char>> {
        self.data.sview()
    }

    /// An empty storage.
    pub fn new() -> (s: Self)
        ensures
            s.items() == Map::<Seq<char>, Seq<char>>::empty(),
    {
        let s = SessionStorage { data: StrMap::new() };
        assert(s.items() =~= Map::<Seq<char>, Seq<char>>::empty());
        s
    }

    /// A copy of the item under `key`.
    pub fn get_item(&self, key: &str) -> (r: Option<String>)
        ensures
            match r {
                Some(v) => self.items().contains_key(key@) && v@ == self.items()[key@],
                None => !self.items().contains_key(key@),
            },
    {
        match self.data.get_str(key) {
            Some(v) => Some(v.clone()),
            None => None,
        }
    }

    /// Sets an item.
    pub fn set_item(&mut self, key: &str, value: &str)
        ensures
            final(self).items() == old(self).items().insert(key@, value@),
    {
        self.data.set_str(key, value);
    }

    /// Removes the item under `key` and returns it.
    pub fn remove_item(&mut self, key: &str) -> (r: Option<String>)
        ensures
            final(self).items() == old(self).items().remove(key@),
            match r {
                Some(v) => old(self).items().contains_key(key@) && v@ == old(self).items()[key@],
                None => !old(self).items().contains_key(key@),
            },
    {
        let r = self.data.remove(key);
        assert(self.data.sview() =~= old(self).items().remove(key@));
        r
    }

    /// Removes every item.
    pub fn clear(&mut self)
        ensures
            final(self).items() == Map::<Seq<char>, Seq<char>>::empty(),
    {
        self.data.clear();
        assert(self.data.sview() =~= Map::<Seq<char>, Seq<char>>::empty());
    }

    /// Number of items.
    pub fn length(&self) -> (n: usize)
        ensures
            n == self.items().dom().len(),
    {
        assert(self.data.sview().dom() =~= self.data@.dom());
        self.data.len()
    }
}

/// An HTTP request in the manner of `XMLHttpRequest`; sending answers with a
/// fixed response.
#[derive(Debug)]
pub struct XMLHttpRequest {
    method: String,
    url: String,
    headers: StrMap<String>,
    status: Option<u16>,
    response_text: Option<String>,
    loaded: bool,
}

impl XMLHttpRequest {
    /// The request method.
    pub closed spec fn method_spec(&self) -> Seq<char> {
        self.method@
    }

    /// The request URL.
    pub closed spec fn url_spec(&self) -> Seq<char> {
        self.url@
    }

    /// The request headers.
    pub closed spec fn headers_spec(&self) -> Map<Seq<char>, Seq<char>> {
        self.headers.sview()
    }

    /// The response status.
    pub closed spec fn status_spec(&self) -> Option<u16> {
        self.status
    }

    /// The response body.
    pub closed spec fn response_spec(&self) -> Option<Seq<char>> {
        match self.response_text {
            Some(t) => Some(t@),
            None => None,
        }
    }

    /// Whether the response has arrived.
    pub closed spec fn loaded_spec(&self) -> bool {
        self.loaded
    }

    /// A `GET` request with no URL, headers or response.
    pub fn new() -> (x: Self)
        ensures
            x.method_spec() == "GET"@,
            x.url_spec().len() == 0,
            x.headers_spec() == Map::<Seq<char>, Seq<char>>::empty(),
            x.status_spec() is None,
            x.response_spec() is None,
            !x.loaded_spec(),
    {
        let x = XMLHttpRequest {
            method: owned("GET"),
            url: String::new(),
            headers: StrMap::new(),
            status: None,
            response_text: None,
            loaded: false,
        };
        assert(x.headers_spec() =~= Map::<Seq<char>, Seq<char>>::empty());
        x
    }

    /// Sets method and URL and forgets any response.
    pub fn open(&mut self, method: &str, url: &str)
        ensures
            final(self).method_spec() == method@,
            final(self).url_spec() == url@,
            final(self).headers_spec() == old(self).headers_spec(),
            final(self).status_spec() is None,
            final(self).response_spec() is None,
            !final(self).loaded_spec(),
    {
        self.method = owned(method);
        self.url = owned(url);
        self.loaded = false;
        self.status = None;
        self.response_text = None;
    }

    /// Sets a request header.
    pub fn set_request_header(&mut self, header: &str, value: &str)
        ensures
            final(self).headers_spec() == old(self).headers_spec().insert(header@, value@),
            final(self).method_spec() == old(self).method_spec(),
            final(self).url_spec() == old(self).url_spec(),
            final(self).status_spec() == old(self).status_spec(),
            final(self).response_spec() == old(self).response_spec(),
            final(self).loaded_spec() == old(self).loaded_spec(),
    {
        self.headers.set_str(header, value);
    }

    /// Sends the request: the response is status 200 with a fixed text.
    pub fn send(&mut self, _body: Option<&str>) -> (r: Result<(), String>)
        ensures
            r is Ok,
            final(self).status_spec() == Some(200u16),
            final(self).response_spec() == Some("Mock response"@),
            final(self).loaded_spec(),
            final(self).method_spec() == old(self).method_spec(),
            final(self).url_spec() == old(self).url_spec(),
            final(self).headers_spec() == old(self).headers_spec(),
    {
        self.status = Some(200);
        self.response_text = Some(owned("Mock response"));
        self.loaded = true;
        Ok(())
    }

    /// The response status.
    pub fn status(&self) -> (r: Option<u16>)
        ensures
            r == self.status_spec(),
    {
        self.status
    }

    /// The response text.
    pub fn response_text(&self) -> (r: Option<&str>)
        ensures
            match r {
                Some(t) => self.response_spec() == Some(t@),
                None => self.response_spec() is None,
            },
    {
        match &self.response_text {
            Some(t) => Some(t.as_str()),
            None => None,
        }
    }

    /// Whether the response has arrived.
    pub fn loaded(&self) -> (b: bool)
        ensures
            b == self.loaded_spec(),
    {
        self.loaded
    }
}

} // verus!
