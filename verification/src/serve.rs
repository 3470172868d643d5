//! The pieces of the search server that decide what a request gets: the
//! output directory searched, the file a `/files/...` request reads, the
//! highlight script put into a served page, and the content type.
use vstd::prelude::*;
use crate::paths::{join_path, joined_path};
use crate::text::{
    chars_of, ends_with, ends_with_exec, lit, matches_at, matches_at_exec, push_char, starts_with,
    starts_with_exec, str_eq, string_of, trim, trim_exec,
};

verus! {

/// The output directory a search request names, or `output` when it names
/// none or only blanks.
pub open spec fn search_output_dir_spec(output_dir: Option<Seq<char>>) -> Seq<char> {
    match output_dir {
        Some(d) => if trim(d).len() > 0 {
            d
        } else {
            "output"@
        },
        None => "output"@,
    }
}

pub open spec fn opt_seq(o: Option<String>) -> Option<Seq<char>> {
    match o {
        Some(s) => Some(s@),
        None => None,
    }
}

pub fn search_output_dir(output_dir: Option<String>) -> (r: String)
    ensures
        r@ == search_output_dir_spec(opt_seq(output_dir)),
{
    match output_dir {
        Some(d) => {
            let c = chars_of(d.as_str());
            let t = trim_exec(&c);
            if t.len() > 0 {
                d
            } else {
                lit("output")
            }
        },
        None => lit("output"),
    }
}

/// How many `/` open `s`.
pub open spec fn leading_slashes(s: Seq<char>) -> nat
    decreases s.len(),
{
    if s.len() == 0 || s[0] != '/' {
        0
    } else {
        1 + leading_slashes(s.drop_first())
    }
}

proof fn lemma_leading_slashes(s: Seq<char>, i: int)
    requires
        0 <= i <= s.len(),
        forall|j: int| 0 <= j < i ==> s[j] == '/',
        i == s.len() || s[i] != '/',
    ensures
        leading_slashes(s) == i,
    decreases i,
{
    if i > 0 {
        lemma_leading_slashes(s.drop_first(), i - 1);
    }
}

/// The file a `/files/<path>` request reads: `path` without its leading `/`,
/// under the output directory given (`./output` when none is), or under the
/// data directory for the search page itself.
pub open spec fn requested_file(
    data_dir: Seq<char>,
    output_dir: Option<Seq<char>>,
    path: Seq<char>,
) -> Seq<char> {
    let safe = path.skip(leading_slashes(path) as int);
    if safe == "dpc_search_server.html"@ {
        joined_path(joined_path(data_dir, "."@), safe)
    } else {
        joined_path(
            joined_path(
                data_dir,
                match output_dir {
                    Some(d) => d,
                    None => "./output"@,
                },
            ),
            safe,
        )
    }
}

pub fn requested_file_path(data_dir: &str, output_dir: Option<String>, path: &str) -> (r: String)
    ensures
        r@ == requested_file(data_dir@, opt_seq(output_dir), path@),
{
    let out = match output_dir {
        Some(d) => d,
        None => lit("./output"),
    };
    let base = join_path(data_dir, out.as_str());
    let p = chars_of(path);
    let mut k: usize = 0;
    while k < p.len() && p[k] == '/'
        invariant
            k <= p.len(),
            forall|j: int| 0 <= j < k ==> p@[j] == '/',
        decreases p.len() - k,
    {
        k = k + 1;
    }
    proof {
        lemma_leading_slashes(p@, k as int);
    }
    let rest = crate::text::skip_exec(&p, k);
    let safe = string_of(&rest);
    if str_eq(safe.as_str(), "dpc_search_server.html") {
        let root = join_path(data_dir, ".");
        join_path(root.as_str(), safe.as_str())
    } else {
        join_path(base.as_str(), safe.as_str())
    }
}

/// The search page the server shows at `/search`.
pub fn search_page_path(data_dir: &str) -> (r: String)
    ensures
        r@ == joined_path(joined_path(data_dir@, "."@), "dpc_search_server.html"@),
{
    let root = join_path(data_dir, ".");
    join_path(root.as_str(), "dpc_search_server.html")
}

/// Calls `base64`'s standard engine (`STANDARD.encode`) on the UTF-8 bytes of a text.
#[verifier::external_body]
fn base64_standard(text: &str) -> (r: String)
    ensures
        r@ == base64_of(text@),
{
    base64::Engine::encode(&base64::engine::general_purpose::STANDARD, text)
}

/// The standard base64 encoding (with padding) of a text's UTF-8 bytes.
pub uninterp spec fn base64_of(text: Seq<char>) -> Seq<char>;

/// Calls `mime_guess::from_path(..).first_or_octet_stream()` and gives the
/// media type as text.
#[verifier::external_body]
fn mime_of(path: &str) -> (r: String)
    ensures
        r@ == mime_of_path(path@),
{
    mime_guess::from_path(path).first_or_octet_stream().as_ref().to_string()
}

/// The media type `mime_guess` gives for a path by its extension, with
/// `application/octet-stream` for one it does not know.
pub uninterp spec fn mime_of_path(path: Seq<char>) -> Seq<char>;

/// The content type a file is served with: its media type, with
/// `; charset=utf-8` added to text types.
pub open spec fn content_type_spec(path: Seq<char>) -> Seq<char> {
    let m = mime_of_path(path);
    if starts_with(m, "text/"@) {
        m + "; charset=utf-8"@
    } else {
        m
    }
}

pub fn content_type(path: &str) -> (r: String)
    ensures
        r@ == content_type_spec(path@),
{
    let mut m = mime_of(path);
    let c = chars_of(m.as_str());
    if starts_with_exec(&c, &chars_of("text/")) {
        m.append("; charset=utf-8");
    }
    m
}

/// `str::replace`: `s[i..]` with every match of `pat`, found left to right
/// without overlap, replaced by `rep`.
pub open spec fn replace_from(s: Seq<char>, pat: Seq<char>, rep: Seq<char>, i: int) -> Seq<char>
    recommends
        pat.len() > 0,
    decreases s.len() - i,
{
    if i < 0 || i >= s.len() || pat.len() == 0 {
        s.skip(i)
    } else if matches_at(s, pat, i) {
        rep + replace_from(s, pat, rep, i + pat.len())
    } else {
        seq![s[i]] + replace_from(s, pat, rep, i + 1)
    }
}

pub open spec fn replace_all(s: Seq<char>, pat: Seq<char>, rep: Seq<char>) -> Seq<char> {
    replace_from(s, pat, rep, 0)
}

fn replace_all_exec(s: &str, pat: &str, rep: &str) -> (r: String)
    requires
        pat@.len() > 0,
    ensures
        r@ == replace_all(s@, pat@, rep@),
{
    let c = chars_of(s);
    let p = chars_of(pat);
    let mut out = String::new();
    let mut i: usize = 0;
    while i < c.len()
        invariant
            i <= c.len(),
            p@ == pat@,
            c@ == s@,
            p@.len() > 0,
            out@ + replace_from(c@, p@, rep@, i as int) == replace_from(c@, p@, rep@, 0),
        decreases c.len() - i,
    {
        if matches_at_exec(&c, &p, i) {
            let ghost before = out@;
            out.append(rep);
            assert(before + (rep@ + replace_from(c@, p@, rep@, i + p@.len())) =~= out@
                + replace_from(c@, p@, rep@, i + p@.len()));
            i = i + p.len();
        } else {
            let ghost before = out@;
            push_char(&mut out, c[i]);
            assert(before + (seq![c@[i as int]] + replace_from(c@, p@, rep@, i + 1)) =~= out@
                + replace_from(c@, p@, rep@, i + 1));
            i = i + 1;
        }
    }
    assert(c@.skip(i as int) =~= Seq::<char>::empty());
    assert(out@ + Seq::<char>::empty() =~= out@);
    out
}

/// The script that marks a matched block of a page, for the base64 text `b64`.
pub open spec fn block_script(b64: Seq<char>) -> Seq<char> {
    r#"
<script>
document.addEventListener("DOMContentLoaded", function() {
    try {
        var term = decodeURIComponent(escape(atob(""#@ + b64 + r#"")));
        if (!term) return;
        var cleanMd = term.replace(/[^\u4e00-\u9fa5a-zA-Z0-9]/g, '');
        if (cleanMd.length < 5) return;
        var prefix = cleanMd.substring(0, Math.min(20, cleanMd.length));
        var suffix = cleanMd.substring(Math.max(0, cleanMd.length - 20));

        var walker = document.createTreeWalker(document.body, NodeFilter.SHOW_TEXT, {
            acceptNode: function(node) {
                var p = node.parentNode;
                if (!p) return NodeFilter.FILTER_ACCEPT;
                var tag = p.tagName.toLowerCase();
                if (tag === 'script' || tag === 'style' || tag === 'noscript') return NodeFilter.FILTER_REJECT;
                return NodeFilter.FILTER_ACCEPT;
            }
        }, false);
        var nodes = [];
        var fullText = "";
        var n;
        while(n = walker.nextNode()) {
            if (n.nodeValue.trim().length === 0) continue;
            var val = n.nodeValue.replace(/[^\u4e00-\u9fa5a-zA-Z0-9]/g, '');
            if (val.length === 0) continue;
            nodes.push({ node: n, start: fullText.length, end: fullText.length + val.length });
            fullText += val;
        }

        var startIndex = fullText.indexOf(prefix);
        var endIndex = fullText.indexOf(suffix, startIndex);
        endIndex = endIndex !== -1 ? endIndex + suffix.length : -1;

        if (startIndex !== -1 && endIndex !== -1 && endIndex >= startIndex) {
            var startAnchor = null;
            var endAnchor = null;
            for (var i = 0; i < nodes.length; i++) {
                if (!startAnchor && nodes[i].end > startIndex) startAnchor = nodes[i].node;
                if (nodes[i].start < endIndex) endAnchor = nodes[i].node;
            }
            if (startAnchor && endAnchor) {
                var range = document.createRange();
                range.setStartBefore(startAnchor);
                range.setEndAfter(endAnchor);
                var hw = document.createTreeWalker(range.commonAncestorContainer, NodeFilter.SHOW_TEXT, {
                    acceptNode: function(node) {
                        if (node.nodeValue.trim().length === 0) return NodeFilter.FILTER_REJECT;
                        var p = node.parentNode;
                        if (p) {
                            var tag = p.tagName.toLowerCase();
                            if (tag === 'script' || tag === 'style' || tag === 'noscript') return NodeFilter.FILTER_REJECT;
                        }
                        if (range.intersectsNode(node)) return NodeFilter.FILTER_ACCEPT;
                        return NodeFilter.FILTER_REJECT;
                    }
                }, false);
                var nodesToWrap = [];
                var hn;
                while(hn = hw.nextNode()) nodesToWrap.push(hn);
                nodesToWrap.forEach(function(node) {
                    var span = document.createElement('span');
                    span.className = 'api-sandbox-highlight';
                    span.style.backgroundColor = 'rgba(250, 204, 21, 0.4)';
                    span.style.color = '#000';
                    node.parentNode.insertBefore(span, node);
                    span.appendChild(node);
                });
                setTimeout(() => {
                    if (startAnchor && startAnchor.parentElement) {
                        startAnchor.parentElement.scrollIntoView({behavior: 'smooth', block: 'center'});
                    }
                }, 100);
            }
        }
    } catch(e) { console.error("Highlight block injection failed", e); }
});
</script></body>"#@
}

/// The script that marks the words of a query in a page, for the base64 text `b64`.
pub open spec fn term_script(b64: Seq<char>) -> Seq<char> {
    r#"
<script>
document.addEventListener("DOMContentLoaded", function() {
    try {
        var term = decodeURIComponent(escape(atob(""#@ + b64 + r#"")));
        if (!term) return;
        var words = term.split(/\s+/).filter(w => w.trim());
        var walker = document.createTreeWalker(document.body, NodeFilter.SHOW_TEXT, {
            acceptNode: function(node) {
                var p = node.parentNode;
                if (!p) return NodeFilter.FILTER_ACCEPT;
                var tag = p.tagName.toLowerCase();
                if (tag === 'script' || tag === 'style' || tag === 'noscript') return NodeFilter.FILTER_REJECT;
                return NodeFilter.FILTER_ACCEPT;
            }
        }, false);
        var nodes = [];
        var n;
        while(n = walker.nextNode()) nodes.push(n);
        nodes.forEach(node => {
            var text = node.nodeValue;
            var hasMatch = false;
            words.forEach(w => {
                if (w.length >= 2 || /[\u4e00-\u9fa5]/.test(w)) {
                    if (text.toLowerCase().includes(w.toLowerCase())) hasMatch = true;
                }
            });
            if (hasMatch) {
                var span = document.createElement('span');
                var highlighted = text;
                words.forEach(w => {
                    if (w.length >= 2 || /[\u4e00-\u9fa5]/.test(w)) {
                        var regex = new RegExp("(" + w + ")", "gi");
                        highlighted = highlighted.replace(regex, "<mark style='background-color: rgba(250, 204, 21, 0.4); color: #000; border-radius: 2px; padding: 0 2px;'>$1</mark>");
                    }
                });
                span.innerHTML = highlighted;
                node.parentNode.replaceChild(span, node);
            }
        });
        setTimeout(() => {
            var firstMark = document.querySelector('mark');
            if (firstMark) firstMark.scrollIntoView({behavior: 'smooth', block: 'center'});
        }, 100);
    } catch(e) { console.error("Highlight injection failed", e); }
});
</script></body>"#@
}

fn block_script_exec(b64: &str) -> (r: String)
    ensures
        r@ == block_script(b64@),
{
    let mut s = lit(r#"
<script>
document.addEventListener("DOMContentLoaded", function() {
    try {
        var term = decodeURIComponent(escape(atob(""#);
    s.append(b64);
    s.append(r#"")));
        if (!term) return;
        var cleanMd = term.replace(/[^\u4e00-\u9fa5a-zA-Z0-9]/g, '');
        if (cleanMd.length < 5) return;
        var prefix = cleanMd.substring(0, Math.min(20, cleanMd.length));
        var suffix = cleanMd.substring(Math.max(0, cleanMd.length - 20));

        var walker = document.createTreeWalker(document.body, NodeFilter.SHOW_TEXT, {
            acceptNode: function(node) {
                var p = node.parentNode;
                if (!p) return NodeFilter.FILTER_ACCEPT;
                var tag = p.tagName.toLowerCase();
                if (tag === 'script' || tag === 'style' || tag === 'noscript') return NodeFilter.FILTER_REJECT;
                return NodeFilter.FILTER_ACCEPT;
            }
        }, false);
        var nodes = [];
        var fullText = "";
        var n;
        while(n = walker.nextNode()) {
            if (n.nodeValue.trim().length === 0) continue;
            var val = n.nodeValue.replace(/[^\u4e00-\u9fa5a-zA-Z0-9]/g, '');
            if (val.length === 0) continue;
            nodes.push({ node: n, start: fullText.length, end: fullText.length + val.length });
            fullText += val;
        }

        var startIndex = fullText.indexOf(prefix);
        var endIndex = fullText.indexOf(suffix, startIndex);
        endIndex = endIndex !== -1 ? endIndex + suffix.length : -1;

        if (startIndex !== -1 && endIndex !== -1 && endIndex >= startIndex) {
            var startAnchor = null;
            var endAnchor = null;
            for (var i = 0; i < nodes.length; i++) {
                if (!startAnchor && nodes[i].end > startIndex) startAnchor = nodes[i].node;
                if (nodes[i].start < endIndex) endAnchor = nodes[i].node;
            }
            if (startAnchor && endAnchor) {
                var range = document.createRange();
                range.setStartBefore(startAnchor);
                range.setEndAfter(endAnchor);
                var hw = document.createTreeWalker(range.commonAncestorContainer, NodeFilter.SHOW_TEXT, {
                    acceptNode: function(node) {
                        if (node.nodeValue.trim().length === 0) return NodeFilter.FILTER_REJECT;
                        var p = node.parentNode;
                        if (p) {
                            var tag = p.tagName.toLowerCase();
                            if (tag === 'script' || tag === 'style' || tag === 'noscript') return NodeFilter.FILTER_REJECT;
                        }
                        if (range.intersectsNode(node)) return NodeFilter.FILTER_ACCEPT;
                        return NodeFilter.FILTER_REJECT;
                    }
                }, false);
                var nodesToWrap = [];
                var hn;
                while(hn = hw.nextNode()) nodesToWrap.push(hn);
                nodesToWrap.forEach(function(node) {
                    var span = document.createElement('span');
                    span.className = 'api-sandbox-highlight';
                    span.style.backgroundColor = 'rgba(250, 204, 21, 0.4)';
                    span.style.color = '#000';
                    node.parentNode.insertBefore(span, node);
                    span.appendChild(node);
                });
                setTimeout(() => {
                    if (startAnchor && startAnchor.parentElement) {
                        startAnchor.parentElement.scrollIntoView({behavior: 'smooth', block: 'center'});
                    }
                }, 100);
            }
        }
    } catch(e) { console.error("Highlight block injection failed", e); }
});
</script></body>"#);
    s
}

fn term_script_exec(b64: &str) -> (r: String)
    ensures
        r@ == term_script(b64@),
{
    let mut s = lit(r#"
<script>
document.addEventListener("DOMContentLoaded", function() {
    try {
        var term = decodeURIComponent(escape(atob(""#);
    s.append(b64);
    s.append(r#"")));
        if (!term) return;
        var words = term.split(/\s+/).filter(w => w.trim());
        var walker = document.createTreeWalker(document.body, NodeFilter.SHOW_TEXT, {
            acceptNode: function(node) {
                var p = node.parentNode;
                if (!p) return NodeFilter.FILTER_ACCEPT;
                var tag = p.tagName.toLowerCase();
                if (tag === 'script' || tag === 'style' || tag === 'noscript') return NodeFilter.FILTER_REJECT;
                return NodeFilter.FILTER_ACCEPT;
            }
        }, false);
        var nodes = [];
        var n;
        while(n = walker.nextNode()) nodes.push(n);
        nodes.forEach(node => {
            var text = node.nodeValue;
            var hasMatch = false;
            words.forEach(w => {
                if (w.length >= 2 || /[\u4e00-\u9fa5]/.test(w)) {
                    if (text.toLowerCase().includes(w.toLowerCase())) hasMatch = true;
                }
            });
            if (hasMatch) {
                var span = document.createElement('span');
                var highlighted = text;
                words.forEach(w => {
                    if (w.length >= 2 || /[\u4e00-\u9fa5]/.test(w)) {
                        var regex = new RegExp("(" + w + ")", "gi");
                        highlighted = highlighted.replace(regex, "<mark style='background-color: rgba(250, 204, 21, 0.4); color: #000; border-radius: 2px; padding: 0 2px;'>$1</mark>");
                    }
                });
                span.innerHTML = highlighted;
                node.parentNode.replaceChild(span, node);
            }
        });
        setTimeout(() => {
            var firstMark = document.querySelector('mark');
            if (firstMark) firstMark.scrollIntoView({behavior: 'smooth', block: 'center'});
        }, 100);
    } catch(e) { console.error("Highlight injection failed", e); }
});
</script></body>"#);
    s
}

/// A served page is an HTML page when its path ends with `.html` or `.htm`.
pub open spec fn is_html_path(path: Seq<char>) -> bool {
    ends_with(path, ".html"@) || ends_with(path, ".htm"@)
}

/// The page with a highlight script put before each `</body>`: for a matched
/// block (`highlight_block`) when one is asked for, else for the words of a
/// query (`highlight`); `None` when the page is not HTML or no highlight is
/// asked for, and it is served as it is.
pub open spec fn highlighted_page(
    path: Seq<char>,
    html: Seq<char>,
    highlight_block: Option<Seq<char>>,
    highlight: Option<Seq<char>>,
) -> Option<Seq<char>> {
    if !is_html_path(path) {
        None
    } else {
        match highlight_block {
            Some(b) => Some(replace_all(html, "</body>"@, block_script(base64_of(b)))),
            None => match highlight {
                Some(h) => Some(replace_all(html, "</body>"@, term_script(base64_of(h)))),
                None => None,
            },
        }
    }
}

pub fn highlight_page(
    path: &str,
    html: &str,
    highlight_block: Option<String>,
    highlight: Option<String>,
) -> (r: Option<String>)
    ensures
        opt_seq(r) == highlighted_page(path@, html@, opt_seq(highlight_block), opt_seq(highlight)),
{
    let p = chars_of(path);
    if !(ends_with_exec(&p, &chars_of(".html")) || ends_with_exec(&p, &chars_of(".htm"))) {
        return None;
    }
    proof {
        reveal_strlit("</body>");
    }
    match highlight_block {
        Some(b) => {
            let b64 = base64_standard(b.as_str());
            let script = block_script_exec(b64.as_str());
            Some(replace_all_exec(html, "</body>", script.as_str()))
        },
        None => match highlight {
            Some(h) => {
                let b64 = base64_standard(h.as_str());
                let script = term_script_exec(b64.as_str());
                Some(replace_all_exec(html, "</body>", script.as_str()))
            },
            None => None,
        },
    }
}


proof fn lemma_replace_from_absent(s: Seq<char>, pat: Seq<char>, rep: Seq<char>, i: int)
    requires
        0 <= i <= s.len(),
        forall|j: int| i <= j ==> !matches_at(s, pat, j),
    ensures
        replace_from(s, pat, rep, i) == s.skip(i),
    decreases s.len() - i,
{
    if i < s.len() && pat.len() > 0 {
        lemma_replace_from_absent(s, pat, rep, i + 1);
        assert(seq![s[i]] + s.skip(i + 1) =~= s.skip(i));
    }
}

/// A text in which the pattern does not occur is left as it is; so a page
/// without `</body>` is served unchanged whatever highlight is asked for.
pub proof fn lemma_replace_all_absent(s: Seq<char>, pat: Seq<char>, rep: Seq<char>)
    requires
        !crate::text::contains(s, pat),
    ensures
        replace_all(s, pat, rep) == s,
{
    lemma_replace_from_absent(s, pat, rep, 0);
    assert(s.skip(0) =~= s);
}

} // verus!
