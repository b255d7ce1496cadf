//! The bytes of a PDF that holds one JPEG image per page, produced in
//! order: header and page tree, then each page, then the cross-reference
//! table. Writing the bytes out is the caller's part.

use crate::text::{chars_of, dec_digits, dec_string, padded_dec, zero_pad};
use crate::wnacg::pixels::JpegPage;
use vstd::prelude::*;

verus! {

/// ASCII text as bytes.
pub open spec fn ascii(s: Seq<char>) -> Seq<u8> {
    s.map_values(|c: char| c as u8)
}

/// A number in decimal, as bytes.
pub open spec fn num(n: nat) -> Seq<u8> {
    ascii(dec_digits(n))
}

/// `%PDF-1.4`, then a comment of four high bytes marking the file binary.
pub open spec fn pdf_header() -> Seq<u8> {
    seq![
        0x25u8,
        0x50u8,
        0x44u8,
        0x46u8,
        0x2Du8,
        0x31u8,
        0x2Eu8,
        0x34u8,
        0x0Au8,
        0x25u8,
        0xE2u8,
        0xE3u8,
        0xCFu8,
        0xD3u8,
        0x0Au8,
    ]
}

/// The head of object `id`.
pub open spec fn object_head(id: nat) -> Seq<u8> {
    num(id) + ascii(" 0 obj\n"@)
}

/// Object `id` with a body.
pub open spec fn object(id: nat, body: Seq<u8>) -> Seq<u8> {
    object_head(id) + body + ascii("\nendobj\n"@)
}

/// The references to the first `n` page objects (`3 0 R 6 0 R ...`).
pub open spec fn kids(n: nat) -> Seq<u8>
    decreases n,
{
    if n == 0 {
        Seq::empty()
    } else {
        kids((n - 1) as nat) + num(3 + 3 * (n - 1) as nat) + ascii(" 0 R "@)
    }
}

pub open spec fn catalog_object() -> Seq<u8> {
    object(1, ascii("<< /Type /Catalog /Pages 2 0 R >>"@))
}

pub open spec fn pages_object(n: nat) -> Seq<u8> {
    object(
        2,
        ascii("<< /Type /Pages /Kids ["@) + kids(n) + ascii("] /Count "@) + num(n) + ascii(
            " >>"@,
        ),
    )
}

/// The start of a document of `n` pages.
pub open spec fn pdf_start(n: nat) -> Seq<u8> {
    pdf_header() + catalog_object() + pages_object(n)
}

/// The drawing commands of a page: the image scaled to the page.
pub open spec fn page_content(w: nat, h: nat, name: nat) -> Seq<u8> {
    ascii("q\n"@) + num(w) + ascii(" 0 0 "@) + num(h) + ascii(" 0 0 cm\n/Im"@) + num(name) + ascii(
        " Do\nQ\n"@,
    )
}

pub open spec fn page_body(w: nat, h: nat, i: nat) -> Seq<u8> {
    ascii("<< /Type /Page /Parent 2 0 R /MediaBox [0 0 "@) + num(w) + ascii(" "@) + num(h)
        + ascii("] /Resources << /XObject << /Im"@) + num(i + 1) + ascii(" "@) + num(5 + 3 * i)
        + ascii(" 0 R >> >> /Contents "@) + num(4 + 3 * i) + ascii(" 0 R >>"@)
}

pub open spec fn content_body(w: nat, h: nat, i: nat) -> Seq<u8> {
    ascii("<< /Length "@) + num(page_content(w, h, i + 1).len()) + ascii(" >>\nstream\n"@)
        + page_content(w, h, i + 1) + ascii("endstream"@)
}

pub open spec fn image_body(w: nat, h: nat, jpeg: Seq<u8>) -> Seq<u8> {
    ascii("<< /Type /XObject /Subtype /Image /Width "@) + num(w) + ascii(" /Height "@) + num(h)
        + ascii(
        " /ColorSpace /DeviceRGB /BitsPerComponent 8 /Filter /DCTDecode /Length "@,
    ) + num(jpeg.len()) + ascii(" >>\nstream\n"@) + jpeg + ascii("\nendstream"@)
}

/// The three objects of page `i` (counted from 0): the page, its content
/// stream, and its image.
pub open spec fn page_objects(i: nat, w: nat, h: nat, jpeg: Seq<u8>) -> (Seq<u8>, Seq<u8>, Seq<u8>) {
    (
        object(3 + 3 * i, page_body(w, h, i)),
        object(4 + 3 * i, content_body(w, h, i)),
        object(5 + 3 * i, image_body(w, h, jpeg)),
    )
}

/// The cross-reference entries of some object offsets.
pub open spec fn xref_entries(offsets: Seq<u64>) -> Seq<u8>
    decreases offsets.len(),
{
    if offsets.len() == 0 {
        Seq::empty()
    } else {
        xref_entries(offsets.drop_last()) + ascii(zero_pad(dec_digits(offsets.last() as nat), 10))
            + ascii(" 00000 n \n"@)
    }
}

/// The cross-reference table and trailer, for objects at `offsets` and
/// the table at `xref`.
pub open spec fn pdf_end(offsets: Seq<u64>, xref: u64) -> Seq<u8> {
    ascii("xref\n0 "@) + num(offsets.len() + 1) + ascii("\n0000000000 65535 f \n"@)
        + xref_entries(offsets) + ascii("trailer\n<< /Size "@) + num(offsets.len() + 1) + ascii(
        " /Root 1 0 R >>\nstartxref\n"@,
    ) + num(xref as nat) + ascii("\n%%EOF\n"@)
}

#[derive(Debug, Clone, Copy, PartialEq, Eq, Structural)]
pub enum PdfError {
    ZeroPages,
    /// More pages than the document declared.
    TooManyPages,
    /// Fewer pages than declared: `(declared, received)`.
    Incomplete(usize, usize),
    /// The document would pass `u64::MAX` bytes.
    TooLarge,
}

impl PdfError {
    pub open spec fn spec_message(self) -> Seq<char> {
        match self {
            PdfError::ZeroPages => "cannot write a PDF with zero pages"@,
            PdfError::TooManyPages => "cannot add more PDF pages than declared"@,
            PdfError::Incomplete(d, r) => "PDF declared "@ + dec_digits(d as nat)
                + " pages but received "@ + dec_digits(r as nat),
            PdfError::TooLarge => "PDF too large"@,
        }
    }

    pub fn message(&self) -> (m: String)
        ensures
            m@ == self.spec_message(),
    {
        match self {
            PdfError::ZeroPages => String::from_str("cannot write a PDF with zero pages"),
            PdfError::TooManyPages => String::from_str("cannot add more PDF pages than declared"),
            PdfError::Incomplete(d, r) => {
                let a = chars_of("PDF declared ");
                let b = dec_string(*d as u64);
                let c = chars_of(" pages but received ");
                let e = dec_string(*r as u64);
                let ab = crate::text::concat(a.as_slice(), b.as_slice());
                let abc = crate::text::concat(ab.as_slice(), c.as_slice());
                crate::text::string_of(crate::text::concat(abc.as_slice(), e.as_slice()).as_slice())
            },
            PdfError::TooLarge => String::from_str("PDF too large"),
        }
    }
}

/// The `k`-th offset points at the head of object `k + 1` in `w`.
pub open spec fn heads_at(w: Seq<u8>, offsets: Seq<u64>) -> bool {
    forall|k: int|
        0 <= k < offsets.len() ==> {
            let o = #[trigger] offsets[k] as int;
            &&& o + object_head((k + 1) as nat).len() <= w.len()
            &&& w.subrange(o, o + object_head((k + 1) as nat).len()) == object_head((k + 1) as nat)
        }
}

/// Appending three objects with the next three ids keeps every offset
/// pointing at its object.
proof fn lemma_heads_append(
    w: Seq<u8>,
    offsets: Seq<u64>,
    o1: Seq<u8>,
    o2: Seq<u8>,
    o3: Seq<u8>,
    id: nat,
)
    requires
        heads_at(w, offsets),
        id == offsets.len() + 1,
        w.len() + o1.len() + o2.len() + o3.len() <= u64::MAX,
        object_head(id).len() <= o1.len() && o1.subrange(0, object_head(id).len() as int)
            == object_head(id),
        object_head(id + 1).len() <= o2.len() && o2.subrange(0, object_head(id + 1).len() as int)
            == object_head(id + 1),
        object_head(id + 2).len() <= o3.len() && o3.subrange(0, object_head(id + 2).len() as int)
            == object_head(id + 2),
    ensures
        heads_at(
            w + o1 + o2 + o3,
            offsets.push(w.len() as u64).push((w.len() + o1.len()) as u64).push(
                (w.len() + o1.len() + o2.len()) as u64,
            ),
        ),
{
    let w2 = w + o1 + o2 + o3;
    let offs = offsets.push(w.len() as u64).push((w.len() + o1.len()) as u64).push(
        (w.len() + o1.len() + o2.len()) as u64,
    );
    let k0 = offsets.len() as int;
    assert forall|k: int| 0 <= k < offs.len() implies {
        let o = #[trigger] offs[k] as int;
        &&& o + object_head((k + 1) as nat).len() <= w2.len()
        &&& w2.subrange(o, o + object_head((k + 1) as nat).len()) == object_head((k + 1) as nat)
    } by {
        let o = offs[k] as int;
        let hl = object_head((k + 1) as nat).len() as int;
        if k < k0 {
            assert(offs[k] == offsets[k]);
            assert(w2.subrange(o, o + hl) =~= w.subrange(o, o + hl));
        } else if k == k0 {
            assert(w2.subrange(o, o + hl) =~= o1.subrange(0, hl));
        } else if k == k0 + 1 {
            assert(w2.subrange(o, o + hl) =~= o2.subrange(0, hl));
        } else {
            assert(w2.subrange(o, o + hl) =~= o3.subrange(0, hl));
        }
    }
}

/// Where a document being produced stands: the offset of every object
/// so far, the bytes produced, and the pages declared and added.
pub struct PdfLayout {
    offsets: Vec<u64>,
    position: u64,
    page_count: usize,
    pages_written: usize,
    written: Ghost<Seq<u8>>,
}

impl PdfLayout {
    pub closed spec fn offsets(self) -> Seq<u64> {
        self.offsets@
    }

    pub closed spec fn position(self) -> u64 {
        self.position
    }

    pub closed spec fn page_count(self) -> nat {
        self.page_count as nat
    }

    pub closed spec fn pages_written(self) -> nat {
        self.pages_written as nat
    }

    /// The bytes produced so far.
    pub closed spec fn written(self) -> Seq<u8> {
        self.written@
    }

    /// Every recorded offset points at the head of its object (object
    /// `k + 1` for the `k`-th offset) in the bytes produced, and there is
    /// one offset per object written.
    pub open spec fn objects_indexed(self) -> bool {
        &&& self.written().len() == self.position()
        &&& self.offsets().len() == 2 + 3 * self.pages_written()
        &&& self.pages_written() <= self.page_count()
        &&& self.page_count() * 24 + 16 <= isize::MAX
        &&& heads_at(self.written(), self.offsets())
    }
}

fn push_lit(out: &mut Vec<u8>, s: &str)
    ensures
        final(out)@ == old(out)@ + ascii(s@),
{
    let v = chars_of(s);
    push_chars(out, v.as_slice());
}

fn push_chars(out: &mut Vec<u8>, v: &[char])
    ensures
        final(out)@ == old(out)@ + ascii(v@),
{
    let ghost start = out@;
    let mut i: usize = 0;
    while i < v.len()
        invariant
            i <= v.len(),
            out@ == start + ascii(v@.take(i as int)),
        decreases v.len() - i,
    {
        out.push(v[i] as u8);
        assert(ascii(v@.take(i + 1)) =~= ascii(v@.take(i as int)).push(v@[i as int] as u8));
        assert(out@ =~= start + ascii(v@.take(i + 1)));
        i = i + 1;
    }
    assert(v@.take(v.len() as int) =~= v@);
}

fn push_num(out: &mut Vec<u8>, n: u64)
    ensures
        final(out)@ == old(out)@ + num(n as nat),
{
    let d = dec_string(n);
    push_chars(out, d.as_slice());
}

fn push_bytes(out: &mut Vec<u8>, b: &[u8])
    ensures
        final(out)@ == old(out)@ + b@,
{
    let ghost start = out@;
    let mut i: usize = 0;
    while i < b.len()
        invariant
            i <= b.len(),
            out@ == start + b@.take(i as int),
        decreases b.len() - i,
    {
        out.push(b[i]);
        assert(out@ =~= start + b@.take(i + 1));
        i = i + 1;
    }
    assert(b@.take(b.len() as int) =~= b@);
}

proof fn lemma_num_len(n: nat)
    ensures
        num(n).len() == dec_digits(n).len(),
        1 <= num(n).len() <= n + 1,
    decreases n,
{
    crate::text::lemma_dec_digits_props(n);
    if n >= 10 {
        lemma_num_len(n / 10);
    }
}

/// The bytes of `object(id, body)`, given the bytes of the body.
fn object_bytes(id: u64, body: &[u8]) -> (r: Vec<u8>)
    ensures
        r@ == object(id as nat, body@),
{
    let mut out: Vec<u8> = Vec::new();
    push_num(&mut out, id);
    push_lit(&mut out, " 0 obj\n");
    push_bytes(&mut out, body);
    push_lit(&mut out, "\nendobj\n");
    assert(out@ =~= object(id as nat, body@));
    out
}

fn kids_bytes(n: usize) -> (r: Vec<u8>)
    requires
        3 * n + 3 <= u64::MAX,
        3 * n + 3 <= usize::MAX,
    ensures
        r@ == kids(n as nat),
{
    let mut out: Vec<u8> = Vec::new();
    let mut i: usize = 0;
    while i < n
        invariant
            i <= n,
            3 * n + 3 <= u64::MAX,
            3 * n + 3 <= usize::MAX,
            out@ == kids(i as nat),
        decreases n - i,
    {
        let ghost before = out@;
        push_num(&mut out, 3u64 + 3u64 * (i as u64));
        push_lit(&mut out, " 0 R ");
        assert(out@ =~= kids((i + 1) as nat));
        i = i + 1;
    }
    out
}


/// The bytes of the three objects of page `index`.
fn page_object_bytes(index: usize, page: &JpegPage) -> (r: (Vec<u8>, Vec<u8>, Vec<u8>))
    requires
        3 * index + 5 <= u64::MAX,
        3 * index + 5 <= usize::MAX,
    ensures
        (r.0@, r.1@, r.2@) == page_objects(
            index as nat,
            page.width as nat,
            page.height as nat,
            page.jpeg@,
        ),
{
    let page_id = 3u64 + 3u64 * (index as u64);
    let content_id = page_id + 1;
    let image_id = page_id + 2;
    let image_name = (index as u64) + 1;
    let width = page.width as u64;
    let height = page.height as u64;
    let mut pb: Vec<u8> = Vec::new();
    push_lit(&mut pb, "<< /Type /Page /Parent 2 0 R /MediaBox [0 0 ");
    push_num(&mut pb, width);
    push_lit(&mut pb, " ");
    push_num(&mut pb, height);
    push_lit(&mut pb, "] /Resources << /XObject << /Im");
    push_num(&mut pb, image_name);
    push_lit(&mut pb, " ");
    push_num(&mut pb, image_id);
    push_lit(&mut pb, " 0 R >> >> /Contents ");
    push_num(&mut pb, content_id);
    push_lit(&mut pb, " 0 R >>");
    assert(pb@ =~= page_body(width as nat, height as nat, index as nat));
    let o_page = object_bytes(page_id, pb.as_slice());
    let mut content: Vec<u8> = Vec::new();
    push_lit(&mut content, "q\n");
    push_num(&mut content, width);
    push_lit(&mut content, " 0 0 ");
    push_num(&mut content, height);
    push_lit(&mut content, " 0 0 cm\n/Im");
    push_num(&mut content, image_name);
    push_lit(&mut content, " Do\nQ\n");
    assert(content@ =~= page_content(width as nat, height as nat, image_name as nat));
    let mut cb: Vec<u8> = Vec::new();
    push_lit(&mut cb, "<< /Length ");
    push_num(&mut cb, content.len() as u64);
    push_lit(&mut cb, " >>\nstream\n");
    push_bytes(&mut cb, content.as_slice());
    push_lit(&mut cb, "endstream");
    assert(cb@ =~= content_body(width as nat, height as nat, index as nat));
    let o_content = object_bytes(content_id, cb.as_slice());
    let mut ib: Vec<u8> = Vec::new();
    push_lit(&mut ib, "<< /Type /XObject /Subtype /Image /Width ");
    push_num(&mut ib, width);
    push_lit(&mut ib, " /Height ");
    push_num(&mut ib, height);
    push_lit(&mut ib, " /ColorSpace /DeviceRGB /BitsPerComponent 8 /Filter /DCTDecode /Length ");
    push_num(&mut ib, page.jpeg.len() as u64);
    push_lit(&mut ib, " >>\nstream\n");
    push_bytes(&mut ib, page.jpeg.as_slice());
    push_lit(&mut ib, "\nendstream");
    assert(ib@ =~= image_body(width as nat, height as nat, page.jpeg@));
    let o_image = object_bytes(image_id, ib.as_slice());
    (o_page, o_content, o_image)
}

impl PdfLayout {
    /// Starts a document of `page_count` pages: the header, the catalog and
    /// the page tree.
    pub fn create(page_count: usize) -> (r: Result<(PdfLayout, Vec<u8>), PdfError>)
        requires
            page_count * 24 + 16 <= isize::MAX,
        ensures
            page_count == 0 ==> r == Err::<(PdfLayout, Vec<u8>), PdfError>(PdfError::ZeroPages),
            page_count > 0 ==> (r matches Ok((l, b)) && b@ == pdf_start(page_count as nat)
                && l.written() == b@ && l.page_count() == page_count && l.pages_written() == 0
                && l.offsets() == seq![
                pdf_header().len() as u64,
                (pdf_header().len() + catalog_object().len()) as u64,
            ] && l.objects_indexed()),
    {
        if page_count == 0 {
            return Err(PdfError::ZeroPages);
        }
        let mut out: Vec<u8> = vec![
            0x25u8,
            0x50u8,
            0x44u8,
            0x46u8,
            0x2Du8,
            0x31u8,
            0x2Eu8,
            0x34u8,
            0x0Au8,
            0x25u8,
            0xE2u8,
            0xE3u8,
            0xCFu8,
            0xD3u8,
            0x0Au8,
        ];
        assert(out@ =~= pdf_header());
        let o1 = out.len() as u64;
        let mut cat_body: Vec<u8> = Vec::new();
        push_lit(&mut cat_body, "<< /Type /Catalog /Pages 2 0 R >>");
        let cat = object_bytes(1, cat_body.as_slice());
        push_bytes(&mut out, cat.as_slice());
        let o2 = out.len() as u64;
        let mut pages_body: Vec<u8> = Vec::new();
        push_lit(&mut pages_body, "<< /Type /Pages /Kids [");
        let k = kids_bytes(page_count);
        push_bytes(&mut pages_body, k.as_slice());
        push_lit(&mut pages_body, "] /Count ");
        push_num(&mut pages_body, page_count as u64);
        push_lit(&mut pages_body, " >>");
        let pages = object_bytes(2, pages_body.as_slice());
        push_bytes(&mut out, pages.as_slice());
        assert(out@ =~= pdf_start(page_count as nat));
        let mut offsets: Vec<u64> = Vec::new();
        offsets.push(o1);
        offsets.push(o2);
        let l = PdfLayout {
            offsets,
            position: out.len() as u64,
            page_count,
            pages_written: 0,
            written: Ghost(out@),
        };
        proof {
            let w = out@;
            assert(w.subrange(o1 as int, o1 + object_head(1).len()) =~= object_head(1));
            assert(w.subrange(o2 as int, o2 + object_head(2).len()) =~= object_head(2));
            assert(l.offsets() =~= seq![o1, o2]);
        }
        Ok((l, out))
    }

    /// The three objects of the next page. Refused past the declared page
    /// count, and where the document would pass `u64::MAX` bytes.
    pub fn add_page(&mut self, page: JpegPage) -> (r: Result<Vec<u8>, PdfError>)
        requires
            old(self).objects_indexed(),
        ensures
            final(self).objects_indexed(),
            final(self).page_count() == old(self).page_count(),
            old(self).pages_written() == old(self).page_count() ==> r == Err::<Vec<u8>, PdfError>(
                PdfError::TooManyPages,
            ) && *final(self) == *old(self),
            ({
                let objs = page_objects(
                    old(self).pages_written(),
                    page.width as nat,
                    page.height as nat,
                    page.jpeg@,
                );
                old(self).pages_written() < old(self).page_count() ==> (r is Ok <==> old(
                    self,
                ).position() + objs.0.len() + objs.1.len() + objs.2.len() <= u64::MAX)
            }),
            match r {
                Ok(b) => {
                    let objs = page_objects(
                        old(self).pages_written(),
                        page.width as nat,
                        page.height as nat,
                        page.jpeg@,
                    );
                    let p = old(self).position() as int;
                    &&& old(self).pages_written() < old(self).page_count()
                    &&& b@ == objs.0 + objs.1 + objs.2
                    &&& final(self).written() == old(self).written() + b@
                    &&& final(self).pages_written() == old(self).pages_written() + 1
                    &&& final(self).offsets() == old(self).offsets().push(p as u64).push(
                        (p + objs.0.len()) as u64,
                    ).push((p + objs.0.len() + objs.1.len()) as u64)
                },
                Err(e) => *final(self) == *old(self) && (e == PdfError::TooManyPages || e
                    == PdfError::TooLarge),
            },
    {
        if self.pages_written == self.page_count {
            return Err(PdfError::TooManyPages);
        }
        let index = self.pages_written;
        let page_id = (3 + index * 3) as u64;
        let content_id = page_id + 1;
        let image_id = page_id + 2;
        let (o_page, o_content, o_image) = page_object_bytes(index, &page);
        let p = self.position;
        let l1 = o_page.len() as u64;
        let l2 = o_content.len() as u64;
        let l3 = o_image.len() as u64;
        if l1 > u64::MAX - p || l2 > u64::MAX - p - l1 || l3 > u64::MAX - p - l1 - l2 {
            return Err(PdfError::TooLarge);
        }
        let mut out: Vec<u8> = Vec::new();
        push_bytes(&mut out, o_page.as_slice());
        push_bytes(&mut out, o_content.as_slice());
        push_bytes(&mut out, o_image.as_slice());
        let ghost old_written = self.written@;
        let ghost old_offsets = self.offsets@;
        self.offsets.push(p);
        self.offsets.push(p + l1);
        self.offsets.push(p + l1 + l2);
        self.position = p + l1 + l2 + l3;
        self.pages_written = index + 1;
        self.written = Ghost(old_written + out@);
        proof {
            assert(out@ =~= o_page@ + o_content@ + o_image@);
            assert(o_page@.subrange(0, object_head(page_id as nat).len() as int) =~= object_head(
                page_id as nat,
            ));
            assert(o_content@.subrange(0, object_head(content_id as nat).len() as int)
                =~= object_head(content_id as nat));
            assert(o_image@.subrange(0, object_head(image_id as nat).len() as int) =~= object_head(
                image_id as nat,
            ));
            lemma_heads_append(
                old_written,
                old_offsets,
                o_page@,
                o_content@,
                o_image@,
                page_id as nat,
            );
            assert(self.written@ =~= old_written + o_page@ + o_content@ + o_image@);
        }
        Ok(out)
    }

    /// The cross-reference table and trailer; refused until every declared
    /// page was added.
    pub fn finish(self) -> (r: Result<Vec<u8>, PdfError>)
        requires
            self.objects_indexed(),
        ensures
            self.pages_written() == self.page_count() ==> (r matches Ok(b) && b@ == pdf_end(
                self.offsets(),
                self.position(),
            )),
            self.pages_written() != self.page_count() ==> r == Err::<Vec<u8>, PdfError>(
                PdfError::Incomplete(self.page_count() as usize, self.pages_written() as usize),
            ),
    {
        if self.pages_written != self.page_count {
            return Err(PdfError::Incomplete(self.page_count, self.pages_written));
        }
        let mut out: Vec<u8> = Vec::new();
        let n = self.offsets.len() as u64;
        push_lit(&mut out, "xref\n0 ");
        push_num(&mut out, n + 1);
        push_lit(&mut out, "\n0000000000 65535 f \n");
        let ghost head = out@;
        let mut i: usize = 0;
        while i < self.offsets.len()
            invariant
                i <= self.offsets.len(),
                out@ == head + xref_entries(self.offsets@.take(i as int)),
            decreases self.offsets.len() - i,
        {
            let d = padded_dec(self.offsets[i], 10);
            push_chars(&mut out, d.as_slice());
            push_lit(&mut out, " 00000 n \n");
            assert(self.offsets@.take(i + 1).drop_last() =~= self.offsets@.take(i as int));
            assert(out@ =~= head + xref_entries(self.offsets@.take(i + 1)));
            i = i + 1;
        }
        assert(self.offsets@.take(self.offsets.len() as int) =~= self.offsets@);
        push_lit(&mut out, "trailer\n<< /Size ");
        push_num(&mut out, n + 1);
        push_lit(&mut out, " /Root 1 0 R >>\nstartxref\n");
        push_num(&mut out, self.position);
        push_lit(&mut out, "\n%%EOF\n");
        assert(out@ =~= pdf_end(self.offsets@, self.position));
        Ok(out)
    }
}

} // verus!
