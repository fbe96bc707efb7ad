//! What a capture needs besides the browser: the script that shows the
//! address of the page on top of it, and the name of the file that the image
//! is written to.

use crate::text::{chars_of, find_double, find_first, first_double, first_index_of, push_range};
use vstd::prelude::*;
use vstd::string::StringExecFns;

verus! {

/// The markup of the address bar, up to the address.
pub const ADDRESS_BAR_HEAD: &'static str = r#"
        <div id="custom-address-bar" style="
            position: fixed;
            top: 0;
            left: 0;
            width: 100%;
            height: 44px;
            background: linear-gradient(to bottom, #f8f8f8, #e8e8e8);
            border-bottom: 1px solid #b2b2b2;
            display: flex;
            align-items: center;
            padding: 0 12px;
            box-sizing: border-box;
            z-index: 999999;
            font-family: -apple-system, BlinkMacSystemFont, 'Segoe UI', 'Roboto', sans-serif;
            font-size: 14px;
        ">
            <div style="
                background: white;
                border: 1px solid #b2b2b2;
                border-radius: 18px;
                padding: 8px 12px;
                width: 100%;
                color: #333;
                overflow: hidden;
                text-overflow: ellipsis;
                white-space: nowrap;
                box-shadow: 0 1px 3px rgba(0,0,0,0.1);
            ">
                "#;

/// The markup of the address bar, after the address.
pub const ADDRESS_BAR_TAIL: &'static str = r#"
            </div>
        </div>
        
        <script>
            // keep the page content clear of the address bar
            document.body.style.paddingTop = '44px';
            document.documentElement.style.paddingTop = '44px';
        </script>
        "#;

/// The statement that inserts markup at the top of the page, up to the
/// markup, which it holds between backticks.
pub const INSERT_HEAD: &'static str = "document.documentElement.insertAdjacentHTML('afterbegin', `";

/// The statement that inserts markup at the top of the page, after the markup.
pub const INSERT_TAIL: &'static str = "`);";

/// The directory of the images, with its separator.
pub const SCREENSHOT_PREFIX: &'static str = "screenshots/";

/// The extension of the images.
pub const SCREENSHOT_SUFFIX: &'static str = ".png";

/// The form of the time stamp in a file name, in the notation of `strftime`.
pub const TIMESTAMP_FORMAT: &'static str = "%Y%m%d_%H%M%S";

/// The characters that a file name cannot hold on every system.
pub open spec fn is_reserved(c: char) -> bool {
    ||| c == '<'
    ||| c == '>'
    ||| c == ':'
    ||| c == '"'
    ||| c == '/'
    ||| c == '\\'
    ||| c == '|'
    ||| c == '?'
    ||| c == '*'
}

/// A character as it goes into a file name: an underscore in place of a
/// reserved one.
pub open spec fn sanitized_char(c: char) -> char {
    if is_reserved(c) {
        '_'
    } else {
        c
    }
}

/// A text as it goes into a file name, character by character.
pub open spec fn sanitized(s: Seq<char>) -> Seq<char> {
    s.map_values(|c: char| sanitized_char(c))
}

/// What follows the first double slash of a URL, or all of it where it has
/// none.
pub open spec fn after_scheme(url: Seq<char>) -> Seq<char> {
    let k = first_double(url, '/');
    if k < url.len() {
        url.skip(k + 2)
    } else {
        url
    }
}

/// The host component of a URL: what follows its first double slash, or all
/// of it where it has none, up to the next slash.
pub open spec fn host_text(url: Seq<char>) -> Seq<char> {
    after_scheme(url).take(first_index_of(after_scheme(url), '/'))
}

/// The path of the image of `url` taken at the time that `timestamp` names.
pub open spec fn screenshot_path_text(timestamp: Seq<char>, url: Seq<char>) -> Seq<char> {
    SCREENSHOT_PREFIX@ + timestamp + "_"@ + sanitized(host_text(url)) + SCREENSHOT_SUFFIX@
}

/// What stands for a character inside a template literal of the script: a
/// backtick is escaped by a backslash.
pub open spec fn escaped_char(c: char) -> Seq<char> {
    if c == '`' {
        seq!['\\', '`']
    } else {
        seq![c]
    }
}

/// A text with each of its backticks escaped.
pub open spec fn escaped_backticks(s: Seq<char>) -> Seq<char> {
    s.map_values(|c: char| escaped_char(c)).flatten()
}

/// The markup of the address bar that shows `url`.
pub open spec fn address_bar_html_text(url: Seq<char>) -> Seq<char> {
    ADDRESS_BAR_HEAD@ + url + ADDRESS_BAR_TAIL@
}

/// The script that puts the address bar that shows `url` on top of the page.
pub open spec fn address_bar_script_text(url: Seq<char>) -> Seq<char> {
    INSERT_HEAD@ + escaped_backticks(address_bar_html_text(url)) + INSERT_TAIL@
}

fn is_reserved_char(c: char) -> (b: bool)
    ensures
        b == is_reserved(c),
{
    c == '<' || c == '>' || c == ':' || c == '"' || c == '/' || c == '\\' || c == '|' || c == '?'
        || c == '*'
}

/// Appends `chars[lo..hi]` to `out` as it goes into a file name.
fn push_sanitized(out: &mut String, chars: &Vec<char>, lo: usize, hi: usize)
    requires
        lo <= hi <= chars.len(),
    ensures
        final(out)@ == old(out)@ + sanitized(chars@.subrange(lo as int, hi as int)),
{
    let ghost run = chars@.subrange(lo as int, hi as int);
    let mut i: usize = lo;
    while i < hi
        invariant
            lo <= i <= hi <= chars.len(),
            run == chars@.subrange(lo as int, hi as int),
            out@ == old(out)@ + sanitized(run.take(i - lo)),
        decreases hi - i,
    {
        let c = chars[i];
        proof {
            assert(run.take(i - lo + 1) =~= run.take(i - lo).push(c));
            assert(sanitized(run.take(i - lo).push(c)) =~= sanitized(run.take(i - lo)).push(
                sanitized_char(c),
            ));
        }
        if is_reserved_char(c) {
            out.push('_');
        } else {
            out.push(c);
        }
        i += 1;
    }
    assert(run.take(hi - lo) =~= run);
}

/// The name with an underscore in place of each character that a file name
/// cannot hold; the other characters stay, and so does the length.
pub fn sanitize_filename(filename: &str) -> (name: String)
    ensures
        name@ == sanitized(filename@),
        name@.len() == filename@.len(),
        forall|i: int| 0 <= i < name@.len() ==> !is_reserved(#[trigger] name@[i]),
{
    let chars = chars_of(filename);
    let mut name = String::new();
    push_sanitized(&mut name, &chars, 0, chars.len());
    assert(chars@.subrange(0, chars@.len() as int) =~= filename@);
    name
}

/// The bounds of the host component in the characters of a URL.
fn host_bounds(chars: &Vec<char>) -> (cut: (usize, usize))
    ensures
        cut.0 <= cut.1 <= chars.len(),
        chars@.subrange(cut.0 as int, cut.1 as int) == host_text(chars@),
{
    let n = chars.len();
    assert(chars@.subrange(0, n as int) =~= chars@);
    let k = find_double(chars, 0, n, '/');
    let from = if k < n {
        k + 2
    } else {
        0
    };
    assert(chars@.subrange(from as int, n as int) =~= after_scheme(chars@));
    let to = find_first(chars, from, n, '/');
    assert(chars@.subrange(from as int, to as int) =~= host_text(chars@));
    (from, to)
}

/// The host component of a URL: what follows its first double slash, or all
/// of it where it has none, up to the next slash.
pub fn host_component(url: &str) -> (host: String)
    ensures
        host@ == host_text(url@),
{
    let chars = chars_of(url);
    let (from, to) = host_bounds(&chars);
    let mut host = String::new();
    push_range(&mut host, &chars, from, to);
    host
}

/// The path of the image of `url` taken at the time that `timestamp` names:
/// the directory, the time stamp, an underscore, the host component as it
/// goes into a file name, and the extension.
pub fn screenshot_path(timestamp: &str, url: &str) -> (path: String)
    ensures
        path@ == screenshot_path_text(timestamp@, url@),
{
    let chars = chars_of(url);
    let (from, to) = host_bounds(&chars);
    let mut path = SCREENSHOT_PREFIX.to_owned();
    path.append(timestamp);
    path.append("_");
    push_sanitized(&mut path, &chars, from, to);
    path.append(SCREENSHOT_SUFFIX);
    path
}

/// The local time of the call, written in the given form: `chrono::Local::now`
/// reads the clock and the time zone of the machine, `DateTime::format` takes
/// the form and its `Display` writes the text. Nothing is claimed of the
/// result, which differs from call to call. The form is held to
/// [`TIMESTAMP_FORMAT`], which `chrono` can write; on a form that it cannot
/// write the call would panic, as it does where the clock of the machine
/// stands before the year 1970.
#[verifier::external_body]
fn local_time_text(form: &str) -> (stamp: String)
    requires
        form@ == TIMESTAMP_FORMAT@,
{
    chrono::Local::now().format(form).to_string()
}

/// The path of the image of `url` taken now: the path that
/// [`screenshot_path`] gives for the time stamp that the clock of the
/// machine gives at the call.
pub fn screenshot_path_now(url: &str) -> (path: String)
    ensures
        exists|timestamp: Seq<char>| path@ == screenshot_path_text(timestamp, url@),
{
    let stamp = local_time_text(TIMESTAMP_FORMAT);
    screenshot_path(stamp.as_str(), url)
}

/// Appends `chars` to `out` with each backtick escaped.
fn push_escaped(out: &mut String, chars: &Vec<char>)
    ensures
        final(out)@ == old(out)@ + escaped_backticks(chars@),
{
    let mut i: usize = 0;
    assert(chars@.take(0) =~= Seq::<char>::empty());
    assert(escaped_backticks(Seq::<char>::empty()) =~= Seq::<char>::empty());
    while i < chars.len()
        invariant
            0 <= i <= chars.len(),
            out@ == old(out)@ + escaped_backticks(chars@.take(i as int)),
        decreases chars.len() - i,
    {
        let c = chars[i];
        proof {
            lemma_escaped_push(chars@.take(i as int), c);
            assert(chars@.take(i + 1) =~= chars@.take(i as int).push(c));
        }
        if c == '`' {
            out.push('\\');
            out.push('`');
        } else {
            out.push(c);
        }
        assert(out@ =~= old(out)@ + escaped_backticks(chars@.take(i + 1)));
        i += 1;
    }
    assert(chars@.take(chars@.len() as int) =~= chars@);
}

/// What one more character adds to an escaped text.
proof fn lemma_escaped_push(s: Seq<char>, c: char)
    ensures
        escaped_backticks(s.push(c)) == escaped_backticks(s) + escaped_char(c),
{
    let each = |c: char| escaped_char(c);
    assert(s.push(c).map_values(each) =~= s.map_values(each).push(escaped_char(c)));
    s.map_values(each).lemma_flatten_push(escaped_char(c));
}

/// `text` with each backtick escaped by a backslash, so that it can stand
/// inside a template literal.
pub fn escape_backticks(text: &str) -> (escaped: String)
    ensures
        escaped@ == escaped_backticks(text@),
{
    let chars = chars_of(text);
    let mut escaped = String::new();
    push_escaped(&mut escaped, &chars);
    escaped
}

/// The markup of the address bar that shows `url`.
pub fn address_bar_html(url: &str) -> (html: String)
    ensures
        html@ == address_bar_html_text(url@),
{
    let mut html = ADDRESS_BAR_HEAD.to_owned();
    html.append(url);
    html.append(ADDRESS_BAR_TAIL);
    html
}

/// The script that puts the address bar that shows `url` on top of the
/// page: the markup goes into the statement as a template literal, with its
/// backticks escaped.
pub fn address_bar_script(url: &str) -> (script: String)
    ensures
        script@ == address_bar_script_text(url@),
{
    let html = address_bar_html(url);
    let chars = chars_of(html.as_str());
    let mut script = INSERT_HEAD.to_owned();
    push_escaped(&mut script, &chars);
    script.append(INSERT_TAIL);
    script
}

} // verus!
