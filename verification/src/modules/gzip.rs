use vstd::prelude::*;
use crate::message::{
    first_header, header_lookup, header_text, request_header, response_header, response_header_text,
    response_text, spec_header_text, HttpRequest, HttpResponse,
};
use crate::text::{
    chars_of, contains_chars, contains_seq, has_prefix, is_prefix, lemma_split_char_nonempty,
    lemma_string_set_push, parse_unsigned, parse_unsigned_chars, split_char, split_chars, string_set,
    trim, trim_chars, u64_to_string, decimal,
};

verus! {

/// What compressing `data` with flate2's `GzEncoder` at `Compression::new(level)` (`write_all`,
/// then `finish`, into a `Vec`) gives: the gzip stream with the crate's default header (no name,
/// no time, unknown system), or the text of the I/O error it ends with.
pub uninterp spec fn gzip_encode(level: u32, data: Seq<u8>) -> Result<Seq<u8>, Seq<char>>;

/// Compresses `data` with `flate2::write::GzEncoder` at `level`: `write_all`, then `finish`.
/// Claims that the result, the stream or the error's text, is the named `gzip_encode` of the
/// arguments: the encoder writes into memory, so what comes out depends on them alone.
#[verifier::external_body]
fn gzip_compress(level: u32, data: &[u8]) -> (res: Result<Vec<u8>, String>)
    requires
        level <= 9,
    ensures
        match res {
            Ok(v) => gzip_encode(level, data@) == Ok::<Seq<u8>, Seq<char>>(v@),
            Err(e) => gzip_encode(level, data@) == Err::<Seq<u8>, Seq<char>>(e@),
        },
{
    let mut encoder = flate2::write::GzEncoder::new(Vec::new(), flate2::Compression::new(level));
    std::io::Write::write_all(&mut encoder, data).map_err(|e| e.to_string())?;
    encoder.finish().map_err(|e| e.to_string())
}

/// The content types compressed unless configured otherwise.
pub open spec fn default_compress_types() -> Set<Seq<char>> {
    set![
        "text/html"@, "text/css"@, "text/plain"@, "text/javascript"@, "application/javascript"@,
        "application/json"@, "application/xml"@, "image/svg+xml"@,
    ]
}

/// Compression of responses with gzip.
#[derive(Debug)]
pub struct GzipModule {
    level: u32,
    min_size: usize,
    compress_types: Vec<String>,
}

/// A gzip module's settings: compression level, smallest body compressed, content types
/// compressed (a type matches a response whose base content type starts with it).
pub struct GzipView {
    pub level: u32,
    pub min_size: usize,
    pub types: Set<Seq<char>>,
}

impl GzipModule {
    /// The compression level is one that flate2 takes: at most 9.
    #[verifier::type_invariant]
    spec fn level_in_range(self) -> bool {
        self.level <= 9
    }
}

impl View for GzipModule {
    type V = GzipView;

    closed spec fn view(&self) -> GzipView {
        GzipView { level: self.level, min_size: self.min_size, types: string_set(self.compress_types@) }
    }
}

/// The settings that configuration may give (absent values as `None`).
pub struct GzipSettings {
    pub level: Option<u64>,
    pub min_size: Option<u64>,
    pub compress_types: Option<Vec<String>>,
}

/// The client accepts gzip: its `accept-encoding` header is text that contains `gzip`.
pub open spec fn accepts_gzip(req_headers: Seq<(String, Vec<u8>)>) -> bool {
    match request_header(req_headers, "accept-encoding"@) {
        Some(b) => match spec_header_text(b) {
            Some(t) => contains_seq(t, "gzip"@),
            None => false,
        },
        None => false,
    }
}

/// The content type without its parameters: the text before the first `;`, trimmed.
pub open spec fn base_content_type(ct: Seq<char>) -> Seq<char> {
    trim(split_char(ct, ';')[0])
}

/// Whether a response is to be compressed: the client accepts gzip, the response is not encoded
/// already, its base content type starts with one of the types, and its declared length, where
/// it declares one that parses, is at least the minimum.
pub open spec fn spec_should_compress(g: GzipView, req_headers: Seq<(String, Vec<u8>)>, res_headers: Seq<(String, String)>) -> bool {
    &&& accepts_gzip(req_headers)
    &&& header_lookup(res_headers, "content-encoding"@) is None
    &&& response_header_text(res_headers, "content-type"@) matches Some(ct)
        && exists|t: Seq<char>| g.types.contains(t) && is_prefix(t, base_content_type(ct))
    &&& match response_header_text(res_headers, "content-length"@) {
        Some(cl) => match parse_unsigned(cl, usize::MAX as nat) {
            Some(n) => n >= g.min_size,
            None => true,
        },
        None => true,
    }
}

/// The `accept-encoding` text of a request, when it has the field and its value is text.
pub open spec fn accept_encoding_text(req_headers: Seq<(String, Vec<u8>)>) -> Option<Seq<char>> {
    match request_header(req_headers, "accept-encoding"@) {
        Some(b) => spec_header_text(b),
        None => None,
    }
}

/// Whether `gzip` stands somewhere in `t`.
pub open spec fn mentions_gzip(t: Seq<char>) -> bool {
    exists|k: int| 0 <= k && k + 4 <= t.len() && #[trigger] t.subrange(k, k + 4) == "gzip"@
}

/// A client accepts gzip exactly when its `accept-encoding` text holds `gzip` anywhere: codings
/// listed before or after it change nothing.
pub proof fn gzip_anywhere_in_accept_encoding_is_accepted(req_headers: Seq<(String, Vec<u8>)>)
    ensures
        accepts_gzip(req_headers) == (accept_encoding_text(req_headers) matches Some(t) && mentions_gzip(t)),
{
    reveal_strlit("gzip");
    if let Some(t) = accept_encoding_text(req_headers) {
        if mentions_gzip(t) {
            let k = choose|k: int| 0 <= k && k + 4 <= t.len() && #[trigger] t.subrange(k, k + 4) == "gzip"@;
            assert(crate::text::occurs_at(t, "gzip"@, k));
        }
        if contains_seq(t, "gzip"@) {
            let k = choose|k: int| crate::text::occurs_at(t, "gzip"@, k);
            assert(t.subrange(k, k + 4) == "gzip"@);
        }
    }
}

/// Whether a response is compressed does not depend on where `gzip` stands in the client's
/// `accept-encoding` text, nor on what else it lists: two requests whose texts both mention
/// `gzip` are treated alike, and a request whose text does not is never compressed for.
pub proof fn compression_depends_only_on_gzip_being_accepted(g: GzipView, a: Seq<(String, Vec<u8>)>,
    b: Seq<(String, Vec<u8>)>, res_headers: Seq<(String, String)>)
    ensures
        (accept_encoding_text(a) matches Some(t) && mentions_gzip(t))
            && (accept_encoding_text(b) matches Some(u) && mentions_gzip(u))
            ==> spec_should_compress(g, a, res_headers) == spec_should_compress(g, b, res_headers),
        !(accept_encoding_text(a) matches Some(t) && mentions_gzip(t)) ==> !spec_should_compress(g, a, res_headers),
{
    gzip_anywhere_in_accept_encoding_is_accepted(a);
    gzip_anywhere_in_accept_encoding_is_accepted(b);
}

/// A response is never compressed when it is encoded already, when it declares a length below the
/// minimum, or when its base content type starts with none of the types; it is compressed when the
/// client accepts gzip, it is not encoded, its base content type starts with a listed type and it
/// declares no length.
pub proof fn compression_needs_type_size_and_no_encoding(g: GzipView, req_headers: Seq<(String, Vec<u8>)>, res_headers: Seq<(String, String)>)
    ensures
        header_lookup(res_headers, "content-encoding"@) is Some ==> !spec_should_compress(g, req_headers, res_headers),
        (response_header_text(res_headers, "content-length"@) matches Some(cl)
            && parse_unsigned(cl, usize::MAX as nat) matches Some(n) && n < g.min_size)
            ==> !spec_should_compress(g, req_headers, res_headers),
        (response_header_text(res_headers, "content-type"@) matches Some(ct)
            && forall|t: Seq<char>| g.types.contains(t) ==> !is_prefix(t, base_content_type(ct)))
            ==> !spec_should_compress(g, req_headers, res_headers),
        (accepts_gzip(req_headers) && header_lookup(res_headers, "content-encoding"@) is None
            && response_header_text(res_headers, "content-length"@) is None
            && (response_header_text(res_headers, "content-type"@) matches Some(ct)
            && exists|t: Seq<char>| g.types.contains(t) && is_prefix(t, base_content_type(ct))))
            ==> spec_should_compress(g, req_headers, res_headers),
{
}

impl GzipModule {
    /// Level 6, bodies from 1024 bytes, the default content types.
    pub fn new() -> (res: GzipModule)
        ensures
            res@ == (GzipView { level: 6, min_size: 1024, types: default_compress_types() }),
    {
        let mut types: Vec<String> = Vec::new();
        types.push("text/html".to_owned());
        types.push("text/css".to_owned());
        types.push("text/plain".to_owned());
        types.push("text/javascript".to_owned());
        types.push("application/javascript".to_owned());
        types.push("application/json".to_owned());
        types.push("application/xml".to_owned());
        types.push("image/svg+xml".to_owned());
        let res = GzipModule { level: 6, min_size: 1024, compress_types: types };
        proof {
            let v = res.compress_types@;
            assert forall|m: Seq<char>| string_set(v).contains(m) <==> default_compress_types().contains(m) by {
                if default_compress_types().contains(m) {
                    if m == "text/html"@ { assert(v[0]@ == m); }
                    if m == "text/css"@ { assert(v[1]@ == m); }
                    if m == "text/plain"@ { assert(v[2]@ == m); }
                    if m == "text/javascript"@ { assert(v[3]@ == m); }
                    if m == "application/javascript"@ { assert(v[4]@ == m); }
                    if m == "application/json"@ { assert(v[5]@ == m); }
                    if m == "application/xml"@ { assert(v[6]@ == m); }
                    if m == "image/svg+xml"@ { assert(v[7]@ == m); }
                }
            }
            assert(string_set(v) =~= default_compress_types());
        }
        res
    }

    /// The module with compression level `level`, at most 9.
    pub fn with_level(self, level: u32) -> (res: GzipModule)
        ensures
            res@ == (GzipView { level: if level < 9 { level } else { 9 }, ..self@ }),
    {
        let mut m = self;
        m.level = if level < 9 { level } else { 9 };
        m
    }

    /// The module with smallest compressed body `size`.
    pub fn with_min_size(self, size: usize) -> (res: GzipModule)
        ensures
            res@ == (GzipView { min_size: size, ..self@ }),
    {
        proof { use_type_invariant(&self); }
        let mut m = self;
        m.min_size = size;
        m
    }

    /// The module with `types` added to its content types.
    pub fn with_content_types(self, types: Vec<String>) -> (res: GzipModule)
        ensures
            res@ == (GzipView { types: self@.types.union(string_set(types@)), ..self@ }),
    {
        proof { use_type_invariant(&self); }
        let ghost start = self.compress_types@;
        let GzipModule { level, min_size, compress_types } = self;
        let mut all = compress_types;
        for i in 0..types.len()
            invariant
                string_set(all@) == string_set(start).union(string_set(types@.take(i as int))),
        {
            proof {
                lemma_string_set_push(all@, types@[i as int]);
                lemma_string_set_push(types@.take(i as int), types@[i as int]);
                assert(types@.take(i + 1) == types@.take(i as int).push(types@[i as int]));
            }
            all.push(types[i].clone());
            proof {
                assert(string_set(all@) =~= string_set(start).union(string_set(types@.take(i + 1))));
            }
        }
        assert(types@.take(types@.len() as int) == types@);
        GzipModule { level, min_size, compress_types: all }
    }

    /// The module's name.
    pub fn name(&self) -> (res: &'static str)
        ensures
            res@ == "gzip"@,
    {
        "gzip"
    }

    /// Applies the configured settings: a level (at most 9), a minimum size, and a non-empty list
    /// of content types, which replaces the current ones.
    pub fn init(&mut self, settings: &GzipSettings)
        ensures
            final(self)@.level == match settings.level {
                Some(l) => (if l < 9 { l } else { 9 }) as u32,
                None => old(self)@.level,
            },
            final(self)@.min_size == match settings.min_size {
                Some(s) => s as usize,
                None => old(self)@.min_size,
            },
            final(self)@.types == match settings.compress_types {
                Some(t) => if t@.len() > 0 { string_set(t@) } else { old(self)@.types },
                None => old(self)@.types,
            },
    {
        proof { use_type_invariant(&*self); }
        if let Some(l) = settings.level {
            self.level = if l < 9 { l as u32 } else { 9 };
        }
        if let Some(s) = settings.min_size {
            self.min_size = #[verifier::truncate] (s as usize);
        }
        if let Some(t) = &settings.compress_types {
            if t.len() > 0 {
                self.compress_types = crate::config::clone_strings(t);
            }
        }
    }

    /// Whether the response to this request is to be compressed.
    pub fn should_compress(&self, req: &HttpRequest, res: &HttpResponse) -> (r: bool)
        ensures
            r == spec_should_compress(self@, req.headers@, res.headers@),
    {
        let accepts = match first_header(&req.headers, "accept-encoding") {
            Some(b) => match header_text(b.as_slice()) {
                Some(t) => contains_chars(&chars_of(t.as_str()), &chars_of("gzip")),
                None => false,
            },
            None => false,
        };
        if !accepts {
            return false;
        }
        if response_header(&res.headers, "content-encoding").is_some() {
            return false;
        }
        let type_ok = match response_text(&res.headers, "content-type") {
            Some(ct) => {
                let pieces = split_chars(&ct, ';');
                proof { lemma_split_char_nonempty(ct@, ';'); }
                let base = trim_chars(&pieces[0]);
                let mut found = false;
                for i in 0..self.compress_types.len()
                    invariant
                        base@ == base_content_type(ct@),
                        found ==> exists|t: Seq<char>| self@.types.contains(t) && is_prefix(t, base@),
                        !found ==> forall|j: int| 0 <= j < i ==> !is_prefix(#[trigger] self.compress_types@[j]@, base@),
                {
                    if !found && has_prefix(&base, &chars_of(self.compress_types[i].as_str())) {
                        assert(self@.types.contains(self.compress_types@[i as int]@));
                        found = true;
                    }
                }
                proof {
                    if !found {
                        assert forall|t: Seq<char>| self@.types.contains(t) implies !is_prefix(t, base@) by {
                            let j = choose|j: int| 0 <= j < self.compress_types@.len() && self.compress_types@[j]@ == t;
                            assert(!is_prefix(self.compress_types@[j]@, base@));
                        }
                    }
                }
                found
            },
            None => false,
        };
        if !type_ok {
            return false;
        }
        match response_text(&res.headers, "content-length") {
            Some(cl) => match parse_unsigned_chars(&cl, usize::MAX as u64) {
                Some(n) => n >= self.min_size as u64,
                None => true,
            },
            None => true,
        }
    }
}

/// A response header's value after post-processing: `vary` is `Accept-Encoding`; a compressed
/// body of `len` bytes has `content-encoding: gzip` and its length; every other header is as before.
pub open spec fn processed_header(old_headers: Seq<(String, String)>, compressed: Option<nat>, n: Seq<char>) -> Option<Seq<char>> {
    if n == "vary"@ {
        Some("Accept-Encoding"@)
    } else {
        encoded_header(old_headers, compressed, n)
    }
}

/// A response header's value once a compressed body of `len` bytes is in place.
pub open spec fn encoded_header(old_headers: Seq<(String, String)>, compressed: Option<nat>, n: Seq<char>) -> Option<Seq<char>> {
    if compressed is Some && n == "content-encoding"@ {
        Some("gzip"@)
    } else if compressed is Some && n == "content-length"@ {
        Some(decimal(compressed.unwrap()))
    } else {
        header_lookup(old_headers, n)
    }
}

impl GzipModule {
    /// Compresses the response body when `should_compress` says so and the body has at least
    /// `min_size` bytes; the compressed body is kept only when it is smaller, with
    /// `content-encoding: gzip` and its length. A response that was considered gets
    /// `vary: Accept-Encoding`. When compression fails, its error comes back and the body is empty.
    pub fn post_process(&self, res: &mut HttpResponse, req: &HttpRequest) -> (r: Result<(), String>)
        ensures
            !spec_should_compress(self@, req.headers@, old(res).headers@) ==> r is Ok && *final(res) == *old(res),
            spec_should_compress(self@, req.headers@, old(res).headers@) ==> {
                let data = old(res).body@;
                let kept = if data.len() < self@.min_size {
                    Ok::<Option<Seq<u8>>, Seq<char>>(None)
                } else {
                    match gzip_encode(self@.level, data) {
                        Ok(c) => Ok(if c.len() < data.len() { Some(c) } else { None }),
                        Err(e) => Err(e),
                    }
                };
                &&& final(res).status == old(res).status
                &&& match kept {
                    Err(e) => r matches Err(t) && t@ == e && final(res).body@.len() == 0
                        && final(res).headers == old(res).headers,
                    Ok(smaller) => {
                        &&& r is Ok
                        &&& final(res).body@ == match smaller { Some(c) => c, None => data }
                        &&& forall|n: Seq<char>| #[trigger] header_lookup(final(res).headers@, n)
                            == processed_header(old(res).headers@, match smaller { Some(c) => Some(c.len()), None => None }, n)
                    },
                }
            },
    {
        proof { use_type_invariant(self); }
        if !self.should_compress(req, res) {
            return Ok(());
        }
        let ghost old_headers = res.headers@;
        let mut data: Vec<u8> = Vec::new();
        std::mem::swap(&mut data, &mut res.body);
        let mut compressed_len: Option<usize> = None;
        if data.len() < self.min_size {
            res.body = data;
        } else {
            match gzip_compress(self.level, data.as_slice()) {
                Ok(c) => {
                    if c.len() < data.len() {
                        res.set_header("content-encoding".to_owned(), "gzip".to_owned());
                        let ghost h1 = res.headers@;
                        res.set_header("content-length".to_owned(), u64_to_string(c.len() as u64));
                        compressed_len = Some(c.len());
                        proof {
                            assert forall|n: Seq<char>| #[trigger] header_lookup(res.headers@, n)
                                == encoded_header(old_headers, Some(c@.len()), n) by {
                                reveal_strlit("content-encoding");
                                reveal_strlit("content-length");
                                assert("content-encoding"@.len() != "content-length"@.len());
                                assert(header_lookup(h1, n) == if n == "content-encoding"@ { Some("gzip"@) } else { header_lookup(old_headers, n) });
                            }
                        }
                        res.body = c;
                    } else {
                        res.body = data;
                    }
                },
                Err(e) => {
                    return Err(e);
                },
            }
        }
        let ghost mid_headers = res.headers@;
        let ghost clen: Option<nat> = match compressed_len { Some(l) => Some(l as nat), None => None };
        assert(forall|n: Seq<char>| #[trigger] header_lookup(mid_headers, n) == encoded_header(old_headers, clen, n));
        res.set_header("vary".to_owned(), "Accept-Encoding".to_owned());
        proof {
            assert forall|n: Seq<char>| #[trigger] header_lookup(res.headers@, n)
                == processed_header(old_headers, clen, n) by {
                if n != "vary"@ {
                    assert(header_lookup(res.headers@, n) == header_lookup(mid_headers, n));
                }
            }
        }
        Ok(())
    }
}

} // verus!
