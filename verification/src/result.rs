//! A search hit and the links under which the static file server shows it.
use vstd::prelude::*;
use crate::text::{chars_of, ends_with, ends_with_exec, push_range, string_of, take_exec};
use vstd::utf8::encode_utf8;

verus! {

/// One search hit. The relevance score is kept beside it by the caller that ranks.
pub struct SearchResult {
    pub filename: String,
    pub title: String,
    pub snippet: String,
    pub url: String,
    pub start_line: usize,
    pub end_line: usize,
    pub matched_block: String,
    pub local_path: String,
    pub md_download_url: Option<String>,
    pub html_view_url: Option<String>,
    pub html_block_view_url: Option<String>,
}

/// A byte that `application/x-www-form-urlencoded` serialization keeps as it is.
pub open spec fn byte_unchanged(b: u8) -> bool {
    b == 0x2A || b == 0x2D || b == 0x2E || (0x30 <= b && b <= 0x39) || (0x41 <= b && b <= 0x5A)
        || b == 0x5F || (0x61 <= b && b <= 0x7A)
}

/// An upper-case hexadecimal digit.
pub open spec fn hex_upper(d: nat) -> char {
    if d < 10 {
        (48 + d) as char
    } else {
        (55 + d) as char
    }
}

/// The serialization of one byte: kept, `+` for a space, `%XX` otherwise.
pub open spec fn encode_byte(b: u8) -> Seq<char> {
    if byte_unchanged(b) {
        seq![b as char]
    } else if b == 0x20 {
        seq!['+']
    } else {
        seq!['%', hex_upper((b / 16) as nat), hex_upper((b % 16) as nat)]
    }
}

/// The `application/x-www-form-urlencoded` byte serialization of `bytes`.
pub open spec fn form_urlencode(bytes: Seq<u8>) -> Seq<char>
    decreases bytes.len(),
{
    if bytes.len() == 0 {
        Seq::empty()
    } else {
        form_urlencode(bytes.drop_last()) + encode_byte(bytes.last())
    }
}

/// Calls `url::form_urlencoded::byte_serialize` on the UTF-8 bytes of `s` and
/// collects the pieces: each byte in `*-._`, `0-9`, `A-Z`, `a-z` is kept, a
/// space becomes `+`, every other byte becomes `%` and two upper-case hex digits.
#[verifier::external_body]
fn urlencode(s: &str) -> (r: String)
    ensures
        r@ == form_urlencode(encode_utf8(s@)),
{
    url::form_urlencoded::byte_serialize(s.as_bytes()).collect::<String>()
}

/// The page a result's file name stands for: the part after its first `/`
/// (the `docs` or site prefix), or the whole name when it has none, without a
/// final `.md`. For `docs/page.md` it is `page`.
pub open spec fn file_base(filename: Seq<char>) -> Seq<char> {
    let rest = after_first_slash(filename);
    if ends_with(rest, ".md"@) {
        rest.take(rest.len() - 3)
    } else {
        rest
    }
}

/// The part of a file name after its first `/`, or the whole name when it has none.
pub open spec fn after_first_slash(filename: Seq<char>) -> Seq<char> {
    if exists|i: int| 0 <= i < filename.len() && filename[i] == '/' {
        let i = choose|i: int|
            0 <= i < filename.len() && filename[i] == '/' && forall|j: int|
                0 <= j < i ==> filename[j] != '/';
        filename.subrange(i + 1, filename.len() as int)
    } else {
        filename
    }
}

/// The link under which the Markdown text of a result is downloaded.
pub open spec fn md_download_link(site: Seq<char>, base: Seq<char>, out_dir: Seq<char>) -> Seq<
    char,
> {
    "/files/"@ + site + "/docs/"@ + base + ".md?output_dir="@ + out_dir
}

/// The link under which the HTML view of a result is shown with `param` set to `value`.
pub open spec fn html_view_link(
    site: Seq<char>,
    base: Seq<char>,
    out_dir: Seq<char>,
    param: Seq<char>,
    value: Seq<char>,
) -> Seq<char> {
    "/files/"@ + site + "/html_views/"@ + base + ".html?output_dir="@ + out_dir + param + value
}

fn first_slash(v: &Vec<char>) -> (r: Option<usize>)
    ensures
        match r {
            Some(i) => i < v.len() && v@[i as int] == '/' && forall|j: int|
                0 <= j < i ==> v@[j] != '/',
            None => forall|j: int| 0 <= j < v.len() ==> v@[j] != '/',
        },
{
    let mut i: usize = 0;
    while i < v.len()
        invariant
            i <= v.len(),
            forall|j: int| 0 <= j < i ==> v@[j] != '/',
        decreases v.len() - i,
    {
        if v[i] == '/' {
            return Some(i);
        }
        i = i + 1;
    }
    None
}

impl SearchResult {
    /// Fills in the download and view links of this hit for the given site,
    /// output directory and query.
    pub fn inject_urls(&mut self, port: u16, site_name: &str, output_dir: &str, query: &str)
        ensures
            final(self).filename == old(self).filename,
            final(self).title == old(self).title,
            final(self).snippet == old(self).snippet,
            final(self).url == old(self).url,
            final(self).start_line == old(self).start_line,
            final(self).end_line == old(self).end_line,
            final(self).matched_block == old(self).matched_block,
            final(self).local_path == old(self).local_path,
            final(self).md_download_url matches Some(u) && u@ == md_download_link(
                site_name@,
                file_base(old(self).filename@),
                form_urlencode(encode_utf8(output_dir@)),
            ),
            final(self).html_view_url matches Some(u) && u@ == html_view_link(
                site_name@,
                file_base(old(self).filename@),
                form_urlencode(encode_utf8(output_dir@)),
                "&highlight="@,
                form_urlencode(encode_utf8(query@)),
            ),
            final(self).html_block_view_url matches Some(u) && u@ == html_view_link(
                site_name@,
                file_base(old(self).filename@),
                form_urlencode(encode_utf8(output_dir@)),
                "&highlight_block="@,
                form_urlencode(encode_utf8(old(self).matched_block@)),
            ),
    {
        let name = chars_of(self.filename.as_str());
        let mut base = String::new();
        match first_slash(&name) {
            Some(i) => {
                push_range(&mut base, &name, i + 1, name.len());
                proof {
                    let k = choose|k: int|
                        0 <= k < name@.len() && name@[k] == '/' && forall|j: int|
                            0 <= j < k ==> name@[j] != '/';
                    assert(k == i);
                }
            },
            None => {
                push_range(&mut base, &name, 0, name.len());
                assert(name@.subrange(0, name@.len() as int) =~= name@);
            },
        }
        assert(base@ == after_first_slash(self.filename@));
        let bc = chars_of(base.as_str());
        proof {
            reveal_strlit(".md");
        }
        if ends_with_exec(&bc, &chars_of(".md")) {
            let t = take_exec(&bc, bc.len() - 3);
            base = string_of(&t);
        }
        assert(base@ == file_base(self.filename@));
        let safe_out = urlencode(output_dir);
        let safe_query = urlencode(query);
        let safe_block = urlencode(self.matched_block.as_str());

        let mut md = String::new();
        md.append("/files/");
        md.append(site_name);
        md.append("/docs/");
        md.append(base.as_str());
        md.append(".md?output_dir=");
        md.append(safe_out.as_str());

        let mut view = String::new();
        view.append("/files/");
        view.append(site_name);
        view.append("/html_views/");
        view.append(base.as_str());
        view.append(".html?output_dir=");
        view.append(safe_out.as_str());
        let mut block_view = view.clone();
        view.append("&highlight=");
        view.append(safe_query.as_str());
        block_view.append("&highlight_block=");
        block_view.append(safe_block.as_str());

        assert(md@ =~= md_download_link(site_name@, base@, safe_out@));
        assert(view@ =~= html_view_link(site_name@, base@, safe_out@, "&highlight="@, safe_query@));
        assert(block_view@ =~= html_view_link(
            site_name@,
            base@,
            safe_out@,
            "&highlight_block="@,
            safe_block@,
        ));
        self.md_download_url = Some(md);
        self.html_view_url = Some(view);
        self.html_block_view_url = Some(block_view);
    }
}

} // verus!
