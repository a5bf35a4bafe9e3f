//! The browsing page: a single HTML document listing a directory, with an
//! upload drop zone. Every byte of the page is pinned by the specification;
//! the human-readable size strings come from an outside crate behind a
//! trusted wrapper.

use vstd::prelude::*;
use crate::listing::DirEntry;
use crate::strutil::without_trailing;

verus! {

/// The human-readable (decimal units) rendering of a byte count, as humansize
/// formats it: a function of the value alone.
pub uninterp spec fn human_size_of(n: u64) -> Seq<char>;

/// Relies on humansize::format_size with the DECIMAL options: a fixed, pure
/// formatting of the value.
#[verifier::external_body]
fn human_size(n: u64) -> (r: String)
    ensures
        r@ == human_size_of(n),
{
    humansize::format_size(n, humansize::DECIMAL)
}

/// The URL prefix of entries listed under `path`: empty at the root, else the
/// path with one trailing slash.
pub open spec fn spec_url_prefix(path: Seq<char>) -> Seq<char> {
    if path.len() == 0 {
        Seq::empty()
    } else {
        without_trailing(path, '/') + "/"@
    }
}

/// The list row of a directory entry: a browse link and a ZIP download link.
pub open spec fn spec_dir_row(name: Seq<char>, prefix: Seq<char>) -> Seq<char> {
    "<li><div class=\"file-row\"><a href=\"/list/"@ + prefix + name
        + "\" class=\"file-link\">&#128193; "@ + name + "/</a><a href=\"/download/"@ + prefix
        + name + "\" class=\"action-link\">&#11015; ZIP</a></div></li>"@
}

/// The list row of a file entry: a download link and the formatted size.
pub open spec fn spec_file_row(name: Seq<char>, size: u64, prefix: Seq<char>) -> Seq<char> {
    "<li><div class=\"file-row\"><a href=\"/download/"@ + prefix + name
        + "\" class=\"file-link\">&#128196; "@ + name + "</a><span class=\"meta\">"@
        + human_size_of(size) + "</span></div></li>"@
}

pub open spec fn spec_row(e: DirEntry, prefix: Seq<char>) -> Seq<char> {
    if e.is_dir {
        spec_dir_row(e.name@, prefix)
    } else {
        spec_file_row(e.name@, e.size, prefix)
    }
}

/// All rows of the listing, in order.
pub open spec fn spec_rows(entries: Seq<DirEntry>, prefix: Seq<char>) -> Seq<char>
    decreases entries.len(),
{
    if entries.len() == 0 {
        Seq::empty()
    } else {
        spec_rows(entries.drop_last(), prefix) + spec_row(entries.last(), prefix)
    }
}

/// The link back to the parent listing; absent at the root.
pub open spec fn spec_parent_link(path: Seq<char>) -> Seq<char> {
    if path.len() == 0 {
        Seq::empty()
    } else {
        "<a href=\"../\" class=\"back\">&#11013; Up one level</a>"@
    }
}

/// The whole listing page for `entries` under `path`, with the upload ceiling
/// shown in the drop zone.
pub open spec fn spec_file_list_html(entries: Seq<DirEntry>, path: Seq<char>, max: u64) -> Seq<
    char,
> {
    spec_page_head() + human_size_of(max) + spec_page_mid() + spec_parent_link(path) + "<ul>"@
        + spec_rows(entries, spec_url_prefix(path)) + "</ul><script>const currentPath = \""@ + path
        + "\";"@ + spec_page_script() + "</script></body></html>"@
}

pub open spec fn spec_page_head() -> Seq<char> {
    "<!DOCTYPE html><html><head><meta charset=\"utf-8\"><meta name=\"viewport\" content=\"width=device-width, initial-scale=1\"><title>Local Share</title><style>body{font-family:sans-serif;max-width:900px;margin:2rem auto;padding:0 1rem;background:#f8f9fa;color:#212529}ul{list-style:none;padding:0;background:#fff;border:1px solid #dee2e6;border-radius:8px}li{border-bottom:1px solid #dee2e6}li:last-child{border-bottom:none}.file-row{display:flex;align-items:center;padding:.75rem 1rem}.file-link{flex-grow:1;text-decoration:none;color:#212529;font-weight:500}.action-link{text-decoration:none;color:#007bff;font-size:.9em;padding:.25rem .5rem;border-radius:4px;background:#e7f1ff}.meta{color:#6c757d;font-size:.85em;margin-left:1rem}.back{display:inline-block;margin-bottom:1rem;text-decoration:none;color:#6c757d}#drop-zone{border:2px dashed #dee2e6;border-radius:8px;padding:2rem;text-align:center;margin-bottom:2rem;background:#fff;cursor:pointer}</style></head><body><h1>Local Share</h1><div id=\"drop-zone\"><p>Drop files here or click to upload</p><p style=\"font-size:.8em\">Max: "@
}

pub open spec fn spec_page_mid() -> Seq<char> {
    "</p><input type=\"file\" id=\"file-input\" multiple style=\"display:none\"></div>"@
}

pub open spec fn spec_page_script() -> Seq<char> {
    "const dz=document.getElementById('drop-zone');const fi=document.getElementById('file-input');dz.addEventListener('click',()=>fi.click());fi.addEventListener('change',e=>up(e.target.files));dz.addEventListener('dragover',e=>e.preventDefault());dz.addEventListener('drop',e=>{e.preventDefault();up(e.dataTransfer.files);});async function up(fs){for(const f of fs){const fd=new FormData();fd.append('file',f);const p=currentPath?('?path='+encodeURIComponent(currentPath)):'?path=/';await fetch('/upload'+p,{method:'POST',body:fd});}window.location.reload();}"@
}

fn build_row(e: &DirEntry, prefix: &str) -> (r: String)
    ensures
        r@ == spec_row(*e, prefix@),
{
    if e.is_dir {
        let mut r = "<li><div class=\"file-row\"><a href=\"/list/".to_owned();
        r.append(prefix);
        r.append(e.name.as_str());
        r.append("\" class=\"file-link\">&#128193; ");
        r.append(e.name.as_str());
        r.append("/</a><a href=\"/download/");
        r.append(prefix);
        r.append(e.name.as_str());
        r.append("\" class=\"action-link\">&#11015; ZIP</a></div></li>");
        proof {
            assert(r@ =~= spec_dir_row(e.name@, prefix@));
        }
        r
    } else {
        let mut r = "<li><div class=\"file-row\"><a href=\"/download/".to_owned();
        r.append(prefix);
        r.append(e.name.as_str());
        r.append("\" class=\"file-link\">&#128196; ");
        r.append(e.name.as_str());
        r.append("</a><span class=\"meta\">");
        let size = human_size(e.size);
        r.append(size.as_str());
        r.append("</span></div></li>");
        proof {
            assert(r@ =~= spec_file_row(e.name@, e.size, prefix@));
        }
        r
    }
}

/// Renders the listing page: the already sorted entries under `current_path`,
/// with the configured upload ceiling displayed.
#[verifier::loop_isolation(false)]
#[verifier::rlimit(100)]
pub fn generate_file_list_html(entries: &Vec<DirEntry>, current_path: &str, max_upload_size: u64)
    -> (r: String)
    ensures
        r@ == spec_file_list_html(entries@, current_path@, max_upload_size),
{
    let prefix: String = if current_path.unicode_len() == 0 {
        String::new()
    } else {
        let mut p = crate::strutil::str_without_trailing(current_path, '/');
        p.append("/");
        p
    };
    proof {
        assert(prefix@ == spec_url_prefix(current_path@));
    }
    let mut rows = String::new();
    let n = entries.len();
    let mut i: usize = 0;
    proof {
        assert(rows@ =~= spec_rows(entries@.subrange(0, 0), prefix@));
    }
    while i < n
        invariant
            0 <= i <= n,
            n == entries@.len(),
            rows@ == spec_rows(entries@.subrange(0, i as int), prefix@),
        decreases n - i,
    {
        let row = build_row(&entries[i], prefix.as_str());
        rows.append(row.as_str());
        proof {
            assert(entries@.subrange(0, i + 1).drop_last() =~= entries@.subrange(0, i as int));
            assert(entries@.subrange(0, i + 1).last() == entries@[i as int]);
        }
        i = i + 1;
    }
    proof {
        assert(entries@.subrange(0, n as int) =~= entries@);
    }
    let mut page =
        "<!DOCTYPE html><html><head><meta charset=\"utf-8\"><meta name=\"viewport\" content=\"width=device-width, initial-scale=1\"><title>Local Share</title><style>body{font-family:sans-serif;max-width:900px;margin:2rem auto;padding:0 1rem;background:#f8f9fa;color:#212529}ul{list-style:none;padding:0;background:#fff;border:1px solid #dee2e6;border-radius:8px}li{border-bottom:1px solid #dee2e6}li:last-child{border-bottom:none}.file-row{display:flex;align-items:center;padding:.75rem 1rem}.file-link{flex-grow:1;text-decoration:none;color:#212529;font-weight:500}.action-link{text-decoration:none;color:#007bff;font-size:.9em;padding:.25rem .5rem;border-radius:4px;background:#e7f1ff}.meta{color:#6c757d;font-size:.85em;margin-left:1rem}.back{display:inline-block;margin-bottom:1rem;text-decoration:none;color:#6c757d}#drop-zone{border:2px dashed #dee2e6;border-radius:8px;padding:2rem;text-align:center;margin-bottom:2rem;background:#fff;cursor:pointer}</style></head><body><h1>Local Share</h1><div id=\"drop-zone\"><p>Drop files here or click to upload</p><p style=\"font-size:.8em\">Max: ".to_owned();
    let max_str = human_size(max_upload_size);
    page.append(max_str.as_str());
    page.append("</p><input type=\"file\" id=\"file-input\" multiple style=\"display:none\"></div>");
    if current_path.unicode_len() > 0 {
        page.append("<a href=\"../\" class=\"back\">&#11013; Up one level</a>");
    }
    page.append("<ul>");
    page.append(rows.as_str());
    page.append("</ul><script>const currentPath = \"");
    page.append(current_path);
    page.append("\";");
    page.append(
        "const dz=document.getElementById('drop-zone');const fi=document.getElementById('file-input');dz.addEventListener('click',()=>fi.click());fi.addEventListener('change',e=>up(e.target.files));dz.addEventListener('dragover',e=>e.preventDefault());dz.addEventListener('drop',e=>{e.preventDefault();up(e.dataTransfer.files);});async function up(fs){for(const f of fs){const fd=new FormData();fd.append('file',f);const p=currentPath?('?path='+encodeURIComponent(currentPath)):'?path=/';await fetch('/upload'+p,{method:'POST',body:fd});}window.location.reload();}",
    );
    page.append("</script></body></html>");
    proof {
        assert(page@ =~= spec_file_list_html(entries@, current_path@, max_upload_size));
    }
    page
}

} // verus!
