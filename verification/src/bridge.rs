//! The command bridge: decide what one decoded command does — which
//! script runs in the browser, which error is written back — and keep
//! the one-shot table that pairs a script evaluation with its reply.
use vstd::prelude::*;
use crate::strmap::{StrMap, spec_lookup};
use crate::text::{dec_str, to_chars, chars_eq, chars_to_string, push_str_chars, push_all,
    dec_chars, starts_with, starts_with_chars};
use crate::urlinfo::url_host_of;

verus! {

/// One decoded command from the protocol file.
pub struct Command {
    pub action: String,
    pub url: Option<String>,
    pub selector: Option<String>,
    pub value: Option<String>,
    pub amount: Option<i64>,
    pub direction: Option<String>,
    pub js: Option<String>,
    pub ref_id: Option<u64>,
    pub index: Option<u64>,
    pub message: Option<String>,
}

// --- embedding strings into scripts ---

pub open spec fn hex_digit(n: nat) -> char {
    if n < 10 {
        ((48 + n) as u8) as char
    } else {
        ((87 + n) as u8) as char
    }
}

/// One character as it stands inside a double-quoted JSON string
/// literal.
pub open spec fn esc_char(c: char) -> Seq<char> {
    if c == '"' {
        seq!['\\', '"']
    } else if c == '\\' {
        seq!['\\', '\\']
    } else if c == '\u{8}' {
        seq!['\\', 'b']
    } else if c == '\u{c}' {
        seq!['\\', 'f']
    } else if c == '\n' {
        seq!['\\', 'n']
    } else if c == '\r' {
        seq!['\\', 'r']
    } else if c == '\t' {
        seq!['\\', 't']
    } else if (c as u32) < 32 {
        seq!['\\', 'u', '0', '0', hex_digit(((c as u32) / 16) as nat), hex_digit(
            ((c as u32) % 16) as nat,
        )]
    } else {
        seq![c]
    }
}

pub open spec fn esc_seq(s: Seq<char>) -> Seq<char>
    decreases s.len(),
{
    if s.len() == 0 {
        Seq::empty()
    } else {
        esc_char(s[0]) + esc_seq(s.drop_first())
    }
}

/// A string as a double-quoted JSON literal, ready to stand inside a
/// script.
pub open spec fn json_quote(s: Seq<char>) -> Seq<char> {
    seq!['"'] + esc_seq(s) + seq!['"']
}

fn esc_char_exec(c: char, out: &mut Vec<char>)
    ensures
        final(out)@ == old(out)@ + esc_char(c),
{
    let code = c as u32;
    if c == '"' {
        out.push('\\');
        out.push('"');
        assert(out@ =~= old(out)@ + esc_char(c));
    } else if c == '\\' {
        out.push('\\');
        out.push('\\');
        assert(out@ =~= old(out)@ + esc_char(c));
    } else if code == 8 {
        out.push('\\');
        out.push('b');
        assert(out@ =~= old(out)@ + esc_char(c));
    } else if code == 12 {
        out.push('\\');
        out.push('f');
        assert(out@ =~= old(out)@ + esc_char(c));
    } else if c == '\n' {
        out.push('\\');
        out.push('n');
        assert(out@ =~= old(out)@ + esc_char(c));
    } else if c == '\r' {
        out.push('\\');
        out.push('r');
        assert(out@ =~= old(out)@ + esc_char(c));
    } else if c == '\t' {
        out.push('\\');
        out.push('t');
        assert(out@ =~= old(out)@ + esc_char(c));
    } else if code < 32 {
        out.push('\\');
        out.push('u');
        out.push('0');
        out.push('0');
        let hi = (code / 16) as u8;
        let lo = (code % 16) as u8;
        let hic: char = if hi < 10 {
            ((48 + hi) as char)
        } else {
            ((87 + hi) as char)
        };
        let loc: char = if lo < 10 {
            ((48 + lo) as char)
        } else {
            ((87 + lo) as char)
        };
        out.push(hic);
        out.push(loc);
        assert(out@ =~= old(out)@ + esc_char(c));
    } else {
        out.push(c);
        assert(out@ =~= old(out)@ + esc_char(c));
    }
}

/// Append the JSON-quoted form of `s`.
pub fn push_json_quoted(out: &mut Vec<char>, s: &str)
    ensures
        final(out)@ == old(out)@ + json_quote(s@),
{
    let cs = to_chars(s);
    out.push('"');
    let ghost base = out@;
    let mut i: usize = 0;
    proof {
        assert(cs@.skip(0) =~= cs@);
    }
    while i < cs.len()
        invariant
            i <= cs@.len(),
            cs@ == s@,
            out@ + esc_seq(cs@.skip(i as int)) == base + esc_seq(cs@),
        decreases cs@.len() - i,
    {
        let ghost pre = cs@.skip(i as int);
        proof {
            assert(pre[0] == cs@[i as int]);
            assert(pre.drop_first() =~= cs@.skip(i as int + 1));
        }
        esc_char_exec(cs[i], out);
        proof {
            assert(out@ + esc_seq(cs@.skip(i as int + 1)) =~= base + esc_seq(cs@));
        }
        i = i + 1;
    }
    proof {
        assert(esc_seq(cs@.skip(cs@.len() as int)) =~= Seq::<char>::empty());
        assert(out@ =~= base + esc_seq(cs@));
    }
    out.push('"');
    proof {
        assert(out@ =~= old(out)@ + json_quote(s@));
    }
}

// --- the scripts the dispatcher sends ---

pub open spec fn spec_click_js(selector: Seq<char>) -> Seq<char> {
    "(() => { const el = document.querySelector("@ + json_quote(selector)
        + "); if(el) { el.click(); return 'clicked'; } else { return 'not found'; } })()"@
}

pub fn click_js(selector: &str) -> (r: String)
    ensures
        r@ == spec_click_js(selector@),
{
    let mut out = to_chars("(() => { const el = document.querySelector(");
    push_json_quoted(&mut out, selector);
    push_str_chars(
        &mut out,
        "); if(el) { el.click(); return 'clicked'; } else { return 'not found'; } })()",
    );
    chars_to_string(&out)
}

pub open spec fn spec_type_js(selector: Seq<char>, value: Seq<char>) -> Seq<char> {
    "(() => { const el = document.querySelector("@ + json_quote(selector)
        + "); if(el) { el.focus(); el.value = "@ + json_quote(value)
        + "; el.dispatchEvent(new Event('input', {bubbles:true})); return 'typed'; } else { return 'not found'; } })()"@
}

pub fn type_js(selector: &str, value: &str) -> (r: String)
    ensures
        r@ == spec_type_js(selector@, value@),
{
    let mut out = to_chars("(() => { const el = document.querySelector(");
    push_json_quoted(&mut out, selector);
    push_str_chars(&mut out, "); if(el) { el.focus(); el.value = ");
    push_json_quoted(&mut out, value);
    push_str_chars(
        &mut out,
        "; el.dispatchEvent(new Event('input', {bubbles:true})); return 'typed'; } else { return 'not found'; } })()",
    );
    chars_to_string(&out)
}

/// A signed scroll distance rendered in decimal.
pub open spec fn dec_int(y: int) -> Seq<char> {
    if y < 0 {
        seq!['-'] + dec_str((-y) as nat)
    } else {
        dec_str(y as nat)
    }
}

pub open spec fn spec_scroll_js(y: int) -> Seq<char> {
    "window.scrollBy(0, "@ + dec_int(y) + "); 'scrolled'"@
}

/// The scroll script: up negates the distance.
pub fn scroll_js(amount: i64, up: bool) -> (r: String)
    ensures
        r@ == spec_scroll_js(
            if up {
                -(amount as int)
            } else {
                amount as int
            },
        ),
{
    let ghost y: int = if up {
        -(amount as int)
    } else {
        amount as int
    };
    let neg = if up {
        amount > 0
    } else {
        amount < 0
    };
    let mag: u64 = if amount >= 0 {
        amount as u64
    } else {
        ((-(amount + 1)) as u64) + 1
    };
    proof {
        if y < 0 {
            assert(neg);
            assert(mag == -y);
        } else {
            assert(!neg || y == 0);
            assert(mag == y || (y == 0 && mag == 0));
        }
    }
    let mut out = to_chars("window.scrollBy(0, ");
    if neg {
        out.push('-');
    }
    let d = dec_chars(mag);
    push_all(&mut out, &d);
    push_str_chars(&mut out, "); 'scrolled'");
    proof {
        assert(out@ =~= "window.scrollBy(0, "@ + dec_int(y) + "); 'scrolled'"@);
    }
    chars_to_string(&out)
}

pub open spec fn spec_click_ref_js(ref_id: nat) -> Seq<char> {
    "(() => { const refs = window.__hh_refs || []; const el = refs["@ + dec_str(ref_id)
        + "]; if(!el) return JSON.stringify({ok:false,err:'ref not found'}); var role = el.getAttribute('role') || el.tagName.toLowerCase(); var label = (el.getAttribute('aria-label') || el.innerText || '').substring(0,80).trim(); el.scrollIntoView({block:'center'}); el.click(); return JSON.stringify({ok:true,role:role,label:label,url:location.href}); })()"@
}

pub fn click_ref_js(ref_id: u64) -> (r: String)
    ensures
        r@ == spec_click_ref_js(ref_id as nat),
{
    let mut out = to_chars("(() => { const refs = window.__hh_refs || []; const el = refs[");
    let d = dec_chars(ref_id);
    push_all(&mut out, &d);
    push_str_chars(
        &mut out,
        "]; if(!el) return JSON.stringify({ok:false,err:'ref not found'}); var role = el.getAttribute('role') || el.tagName.toLowerCase(); var label = (el.getAttribute('aria-label') || el.innerText || '').substring(0,80).trim(); el.scrollIntoView({block:'center'}); el.click(); return JSON.stringify({ok:true,role:role,label:label,url:location.href}); })()",
    );
    chars_to_string(&out)
}

pub open spec fn spec_type_ref_js(ref_id: nat, value: Seq<char>) -> Seq<char> {
    "(() => { const refs = window.__hh_refs || []; const el = refs["@ + dec_str(ref_id)
        + "]; if(!el) return JSON.stringify({ok:false,err:'ref not found'}); var role = el.getAttribute('role') || el.tagName.toLowerCase(); var label = (el.getAttribute('aria-label') || el.placeholder || '').substring(0,80).trim(); el.focus(); el.value = "@
        + json_quote(value)
        + "; el.dispatchEvent(new Event('input', {bubbles:true})); el.dispatchEvent(new Event('change', {bubbles:true})); return JSON.stringify({ok:true,role:role,label:label,url:location.href}); })()"@
}

pub fn type_ref_js(ref_id: u64, value: &str) -> (r: String)
    ensures
        r@ == spec_type_ref_js(ref_id as nat, value@),
{
    let mut out = to_chars("(() => { const refs = window.__hh_refs || []; const el = refs[");
    let d = dec_chars(ref_id);
    push_all(&mut out, &d);
    push_str_chars(
        &mut out,
        "]; if(!el) return JSON.stringify({ok:false,err:'ref not found'}); var role = el.getAttribute('role') || el.tagName.toLowerCase(); var label = (el.getAttribute('aria-label') || el.placeholder || '').substring(0,80).trim(); el.focus(); el.value = ",
    );
    push_json_quoted(&mut out, value);
    push_str_chars(
        &mut out,
        "; el.dispatchEvent(new Event('input', {bubbles:true})); el.dispatchEvent(new Event('change', {bubbles:true})); return JSON.stringify({ok:true,role:role,label:label,url:location.href}); })()",
    );
    chars_to_string(&out)
}

pub open spec fn spec_select_ref_js(ref_id: nat, value: Seq<char>) -> Seq<char> {
    "(() => { const refs = window.__hh_refs || []; const el = refs["@ + dec_str(ref_id)
        + "]; if(!el) return JSON.stringify({ok:false,err:'ref not found'}); var role = el.getAttribute('role') || el.tagName.toLowerCase(); var label = (el.getAttribute('aria-label') || '').substring(0,80).trim(); el.value = "@
        + json_quote(value)
        + "; el.dispatchEvent(new Event('change', {bubbles:true})); return JSON.stringify({ok:true,role:role,label:label,selected:el.value,url:location.href}); })()"@
}

pub fn select_ref_js(ref_id: u64, value: &str) -> (r: String)
    ensures
        r@ == spec_select_ref_js(ref_id as nat, value@),
{
    let mut out = to_chars("(() => { const refs = window.__hh_refs || []; const el = refs[");
    let d = dec_chars(ref_id);
    push_all(&mut out, &d);
    push_str_chars(
        &mut out,
        "]; if(!el) return JSON.stringify({ok:false,err:'ref not found'}); var role = el.getAttribute('role') || el.tagName.toLowerCase(); var label = (el.getAttribute('aria-label') || '').substring(0,80).trim(); el.value = ",
    );
    push_json_quoted(&mut out, value);
    push_str_chars(
        &mut out,
        "; el.dispatchEvent(new Event('change', {bubbles:true})); return JSON.stringify({ok:true,role:role,label:label,selected:el.value,url:location.href}); })()",
    );
    chars_to_string(&out)
}

pub open spec fn spec_ws_send_js(index: nat, message: Seq<char>) -> Seq<char> {
    "(() => { const sockets = window.__hh_ws || []; const ws = sockets.filter(s => s.readyState === 1)["@
        + dec_str(index) + "]; if(ws) { ws.send("@ + json_quote(message)
        + "); return 'sent'; } else { return 'no open websocket'; } })()"@
}

pub fn ws_send_js(index: u64, message: &str) -> (r: String)
    ensures
        r@ == spec_ws_send_js(index as nat, message@),
{
    let mut out = to_chars(
        "(() => { const sockets = window.__hh_ws || []; const ws = sockets.filter(s => s.readyState === 1)[",
    );
    let d = dec_chars(index);
    push_all(&mut out, &d);
    push_str_chars(&mut out, "]; if(ws) { ws.send(");
    push_json_quoted(&mut out, message);
    push_str_chars(&mut out, "); return 'sent'; } else { return 'no open websocket'; } })()");
    chars_to_string(&out)
}

pub open spec fn spec_ws_list_js() -> Seq<char> {
    "(() => { const sockets = window.__hh_ws || []; return JSON.stringify(sockets.map((s,i) => ({index:i, url:s.url, state:['CONNECTING','OPEN','CLOSING','CLOSED'][s.readyState]}))); })()"@
}

pub fn ws_list_js() -> (r: String)
    ensures
        r@ == spec_ws_list_js(),
{
    String::from_str(
        "(() => { const sockets = window.__hh_ws || []; return JSON.stringify(sockets.map((s,i) => ({index:i, url:s.url, state:['CONNECTING','OPEN','CLOSING','CLOSED'][s.readyState]}))); })()",
    )
}

pub open spec fn spec_read_page_js() -> Seq<char> {
    "document.documentElement.outerHTML.substring(0, 500000)"@
}

pub fn read_page_js() -> (r: String)
    ensures
        r@ == spec_read_page_js(),
{
    String::from_str("document.documentElement.outerHTML.substring(0, 500000)")
}

pub open spec fn spec_cookies_js() -> Seq<char> {
    "document.cookie"@
}

pub fn cookies_js() -> (r: String)
    ensures
        r@ == spec_cookies_js(),
{
    String::from_str("document.cookie")
}

// --- the script-eval correlation protocol ---

/// The correlation id handed to the browser side.
pub open spec fn spec_eval_id(n: nat) -> Seq<char> {
    seq!['e'] + dec_str(n)
}

pub fn eval_id(n: u64) -> (r: String)
    ensures
        r@ == spec_eval_id(n as nat),
{
    let mut out: Vec<char> = Vec::new();
    out.push('e');
    let d = dec_chars(n);
    push_all(&mut out, &d);
    proof {
        assert(out@ =~= seq!['e'] + dec_str(n as nat));
    }
    chars_to_string(&out)
}

/// The wrapper around the caller's expression: evaluate it, await it
/// when it is itself asynchronous, stringify the result (non-strings
/// as JSON), and deliver `(id, result)` back through the messaging
/// channel — or `error: <message>` on an exception.
pub open spec fn spec_eval_script(js: Seq<char>, idq: Seq<char>) -> Seq<char> {
    "(function(){try{var __r=("@ + js
        + ");if(__r&&typeof __r.then==='function'){__r.then(function(v){var __s=typeof v==='string'?v:JSON.stringify(v);window.__TAURI_INTERNALS__.invoke('eval_callback',{id:"@
        + idq
        + ",result:__s||'null'});}).catch(function(e){window.__TAURI_INTERNALS__.invoke('eval_callback',{id:"@
        + idq
        + ",result:'error: '+e.message});});}else{var __s=typeof __r==='string'?__r:JSON.stringify(__r);window.__TAURI_INTERNALS__.invoke('eval_callback',{id:"@
        + idq + ",result:__s||'null'});}}catch(e){window.__TAURI_INTERNALS__.invoke('eval_callback',{id:"@
        + idq + ",result:'error: '+e.message});}})();"@
}

/// Build the delivery wrapper for one evaluation.
pub fn eval_script(js: &str, id: &str) -> (r: String)
    ensures
        r@ == spec_eval_script(js@, json_quote(id@)),
{
    let mut idq: Vec<char> = Vec::new();
    push_json_quoted(&mut idq, id);
    let mut out = to_chars("(function(){try{var __r=(");
    push_str_chars(&mut out, js);
    push_str_chars(
        &mut out,
        ");if(__r&&typeof __r.then==='function'){__r.then(function(v){var __s=typeof v==='string'?v:JSON.stringify(v);window.__TAURI_INTERNALS__.invoke('eval_callback',{id:",
    );
    push_all(&mut out, &idq);
    push_str_chars(
        &mut out,
        ",result:__s||'null'});}).catch(function(e){window.__TAURI_INTERNALS__.invoke('eval_callback',{id:",
    );
    push_all(&mut out, &idq);
    push_str_chars(
        &mut out,
        ",result:'error: '+e.message});});}else{var __s=typeof __r==='string'?__r:JSON.stringify(__r);window.__TAURI_INTERNALS__.invoke('eval_callback',{id:",
    );
    push_all(&mut out, &idq);
    push_str_chars(
        &mut out,
        ",result:__s||'null'});}}catch(e){window.__TAURI_INTERNALS__.invoke('eval_callback',{id:",
    );
    push_all(&mut out, &idq);
    push_str_chars(&mut out, ",result:'error: '+e.message});}})();");
    chars_to_string(&out)
}

/// The pending queue for `id` with its first occurrence removed.
pub open spec fn spec_remove_id(l: Seq<u64>, id: u64) -> Seq<u64>
    decreases l.len(),
{
    if l.len() == 0 {
        l
    } else if l[0] == id {
        l.drop_first()
    } else {
        seq![l[0]] + spec_remove_id(l.drop_first(), id)
    }
}

/// The one-shot response slots: a correlation id is added at eval
/// submission and removed on delivery, timeout or submission failure —
/// never left behind.
pub struct EvalRegistry {
    pub next: u64,
    pub pending: Vec<u64>,
}

impl EvalRegistry {
    /// All pending ids distinct and below the next id.
    pub open spec fn wf(&self) -> bool {
        &&& forall|i: int, j: int|
            0 <= i < j < self.pending@.len() ==> self.pending@[i] != self.pending@[j]
        &&& forall|i: int| 0 <= i < self.pending@.len() ==> self.pending@[i] < self.next
    }

    pub fn new() -> (r: EvalRegistry)
        ensures
            r.wf(),
            r.pending@.len() == 0,
            r.next == 0,
    {
        EvalRegistry { next: 0, pending: Vec::new() }
    }

    /// Register a fresh slot and return its id, which was not pending
    /// before.
    pub fn allocate(&mut self) -> (id: u64)
        requires
            old(self).wf(),
            old(self).next < u64::MAX,
        ensures
            final(self).wf(),
            id == old(self).next,
            !old(self).pending@.contains(id),
            final(self).pending@ == old(self).pending@.push(id),
            final(self).next == old(self).next + 1,
    {
        let id = self.next;
        self.next = self.next + 1;
        self.pending.push(id);
        proof {
            if old(self).pending@.contains(id) {
                let w = choose|w: int|
                    0 <= w < old(self).pending@.len() && old(self).pending@[w] == id;
            }
        }
        id
    }

    /// Remove a slot: true when it was pending.  Under well-formedness
    /// the id is gone afterwards, whatever path removed it.
    pub fn remove(&mut self, id: u64) -> (found: bool)
        ensures
            final(self).pending@ == spec_remove_id(old(self).pending@, id),
            final(self).next == old(self).next,
            found == old(self).pending@.contains(id),
    {
        let n = self.pending.len();
        let mut i: usize = 0;
        proof {
            assert(self.pending@.skip(0) =~= self.pending@);
            assert(self.pending@.take(0) + spec_remove_id(self.pending@, id) =~= spec_remove_id(
                self.pending@,
                id,
            ));
        }
        while i < n
            invariant
                self.pending@ == old(self).pending@,
                self.next == old(self).next,
                n == self.pending@.len(),
                i <= n,
                forall|j: int| 0 <= j < i ==> self.pending@[j] != id,
                spec_remove_id(self.pending@, id) == self.pending@.take(i as int) + spec_remove_id(
                    self.pending@.skip(i as int),
                    id,
                ),
            decreases n - i,
        {
            let ghost pre = self.pending@.skip(i as int);
            proof {
                assert(pre[0] == self.pending@[i as int]);
                assert(pre.drop_first() =~= self.pending@.skip(i as int + 1));
            }
            if self.pending[i] == id {
                let ghost before = self.pending@;
                self.pending.remove(i);
                proof {
                    assert(spec_remove_id(pre, id) == pre.drop_first());
                    assert(self.pending@ =~= before.take(i as int) + pre.drop_first());
                    assert(self.pending@ =~= spec_remove_id(before, id));
                    assert(before.contains(id));
                }
                return true;
            }
            proof {
                assert(spec_remove_id(pre, id) == seq![pre[0]] + spec_remove_id(
                    pre.drop_first(),
                    id,
                ));
                assert(self.pending@.take(i as int) + (seq![pre[0]] + spec_remove_id(
                    self.pending@.skip(i as int + 1),
                    id,
                )) =~= self.pending@.take(i as int + 1) + spec_remove_id(
                    self.pending@.skip(i as int + 1),
                    id,
                ));
            }
            i = i + 1;
        }
        proof {
            assert(self.pending@.skip(n as int).len() == 0);
            assert(self.pending@.take(n as int) =~= self.pending@);
            assert(spec_remove_id(self.pending@, id) =~= self.pending@);
            if self.pending@.contains(id) {
                let w = choose|w: int|
                    0 <= w < self.pending@.len() && self.pending@[w] == id;
            }
        }
        false
    }
}


/// The script that renders the compact outline of the visible element
/// tree and fills the page-scoped reference table.
pub open spec fn spec_read_ui_js() -> Seq<char> {
    r#"(() => {
  const refs = [];
  window.__hh_refs = refs;
  const lines = [];

  function isVis(el) {
    if (el.checkVisibility) return el.checkVisibility();
    if (el.offsetParent === null && el.tagName !== 'BODY' && el.tagName !== 'HTML') return false;
    var s = getComputedStyle(el);
    return s.display !== 'none' && s.visibility !== 'hidden';
  }

  function role(el) {
    var ar = el.getAttribute('role');
    if (ar) return ar;
    var t = el.tagName.toLowerCase();
    var ty = (el.getAttribute('type') || '').toLowerCase();
    switch(t) {
      case 'a': return el.href ? 'link' : null;
      case 'button': return 'button';
      case 'input':
        if (ty === 'submit' || ty === 'button') return 'button';
        if (ty === 'checkbox') return 'checkbox';
        if (ty === 'radio') return 'radio';
        if (ty === 'hidden') return null;
        return 'input[' + (ty || 'text') + ']';
      case 'select': return 'select';
      case 'textarea': return 'textarea';
      case 'img': return 'img';
      case 'h1': case 'h2': case 'h3': case 'h4': case 'h5': case 'h6': return t;
      case 'nav': return 'nav';
      case 'main': return 'main';
      case 'aside': return 'aside';
      case 'header': return 'banner';
      case 'footer': return 'footer';
      case 'form': return 'form';
      case 'table': return 'table';
      case 'tr': return 'row';
      case 'td': case 'th': return 'cell';
      case 'ul': case 'ol': return 'list';
      case 'li': return 'listitem';
      case 'dialog': return 'dialog';
      case 'summary': return 'summary';
      default:
        if (el.onclick || el.getAttribute('tabindex') === '0') return 'clickable';
        return null;
    }
  }

  function label(el) {
    var al = el.getAttribute('aria-label');
    if (al) return al.trim().substring(0, 80);
    var t = el.tagName;
    if (t === 'INPUT' || t === 'TEXTAREA') {
      if (el.placeholder) return el.placeholder.substring(0, 80);
      if (el.title) return el.title.substring(0, 80);
      if (el.id) { var lb = document.querySelector('label[for="' + el.id + '"]'); if (lb) return lb.textContent.trim().substring(0, 80); }
    }
    if (t === 'IMG') return (el.alt || el.title || '').substring(0, 80);
    var txt = '';
    for (var i = 0; i < el.childNodes.length; i++) {
      if (el.childNodes[i].nodeType === 3) txt += el.childNodes[i].textContent;
    }
    txt = txt.trim();
    if (txt) return txt.substring(0, 80);
    if (el.children.length <= 2) {
      var inner = (el.innerText || '').trim();
      if (inner && inner.length < 120) return inner.substring(0, 80);
    }
    return '';
  }

  function state(el) {
    var s = [];
    if (el.disabled) s.push('disabled');
    if (el.checked) s.push('checked');
    if (el.getAttribute('aria-selected') === 'true') s.push('selected');
    if (el.getAttribute('aria-expanded') === 'true') s.push('expanded');
    if (el.getAttribute('aria-expanded') === 'false') s.push('collapsed');
    if (el.getAttribute('aria-current')) s.push('current');
    if ((el.tagName === 'INPUT' || el.tagName === 'TEXTAREA') && el.value) s.push('val="' + el.value.substring(0, 50) + '"');
    if (el.tagName === 'SELECT' && el.selectedOptions.length) s.push('val="' + el.selectedOptions[0].text.substring(0, 50) + '"');
    return s.join(' ');
  }

  function walk(el, depth) {
    if (depth > 12 || !isVis(el)) return;
    var r = role(el);
    if (r) {
      var idx = refs.length;
      refs.push(el);
      var lb = label(el);
      var st = state(el);
      var indent = '';
      for (var i = 0; i < Math.min(depth, 8); i++) indent += '  ';
      var line = indent + '[' + idx + '] ' + r;
      if (lb) line += ' "' + lb.replace(/"/g, '\\"') + '"';
      if (st) line += ' ' + st;
      lines.push(line);
    }
    for (var c = 0; c < el.children.length; c++) {
      walk(el.children[c], depth + (r ? 1 : 0));
    }
  }

  walk(document.body, 0);
  if (lines.length > 500) {
    lines.length = 500;
    lines.push('... truncated (' + refs.length + ' total refs)');
  }
  return 'Page: ' + document.title + '\nURL: ' + location.href + '\n' + refs.length + ' elements\n---\n' + lines.join('\n');
})()"#@
}

pub fn read_ui_js() -> (r: String)
    ensures
        r@ == spec_read_ui_js(),
{
    String::from_str(
        r#"(() => {
  const refs = [];
  window.__hh_refs = refs;
  const lines = [];

  function isVis(el) {
    if (el.checkVisibility) return el.checkVisibility();
    if (el.offsetParent === null && el.tagName !== 'BODY' && el.tagName !== 'HTML') return false;
    var s = getComputedStyle(el);
    return s.display !== 'none' && s.visibility !== 'hidden';
  }

  function role(el) {
    var ar = el.getAttribute('role');
    if (ar) return ar;
    var t = el.tagName.toLowerCase();
    var ty = (el.getAttribute('type') || '').toLowerCase();
    switch(t) {
      case 'a': return el.href ? 'link' : null;
      case 'button': return 'button';
      case 'input':
        if (ty === 'submit' || ty === 'button') return 'button';
        if (ty === 'checkbox') return 'checkbox';
        if (ty === 'radio') return 'radio';
        if (ty === 'hidden') return null;
        return 'input[' + (ty || 'text') + ']';
      case 'select': return 'select';
      case 'textarea': return 'textarea';
      case 'img': return 'img';
      case 'h1': case 'h2': case 'h3': case 'h4': case 'h5': case 'h6': return t;
      case 'nav': return 'nav';
      case 'main': return 'main';
      case 'aside': return 'aside';
      case 'header': return 'banner';
      case 'footer': return 'footer';
      case 'form': return 'form';
      case 'table': return 'table';
      case 'tr': return 'row';
      case 'td': case 'th': return 'cell';
      case 'ul': case 'ol': return 'list';
      case 'li': return 'listitem';
      case 'dialog': return 'dialog';
      case 'summary': return 'summary';
      default:
        if (el.onclick || el.getAttribute('tabindex') === '0') return 'clickable';
        return null;
    }
  }

  function label(el) {
    var al = el.getAttribute('aria-label');
    if (al) return al.trim().substring(0, 80);
    var t = el.tagName;
    if (t === 'INPUT' || t === 'TEXTAREA') {
      if (el.placeholder) return el.placeholder.substring(0, 80);
      if (el.title) return el.title.substring(0, 80);
      if (el.id) { var lb = document.querySelector('label[for="' + el.id + '"]'); if (lb) return lb.textContent.trim().substring(0, 80); }
    }
    if (t === 'IMG') return (el.alt || el.title || '').substring(0, 80);
    var txt = '';
    for (var i = 0; i < el.childNodes.length; i++) {
      if (el.childNodes[i].nodeType === 3) txt += el.childNodes[i].textContent;
    }
    txt = txt.trim();
    if (txt) return txt.substring(0, 80);
    if (el.children.length <= 2) {
      var inner = (el.innerText || '').trim();
      if (inner && inner.length < 120) return inner.substring(0, 80);
    }
    return '';
  }

  function state(el) {
    var s = [];
    if (el.disabled) s.push('disabled');
    if (el.checked) s.push('checked');
    if (el.getAttribute('aria-selected') === 'true') s.push('selected');
    if (el.getAttribute('aria-expanded') === 'true') s.push('expanded');
    if (el.getAttribute('aria-expanded') === 'false') s.push('collapsed');
    if (el.getAttribute('aria-current')) s.push('current');
    if ((el.tagName === 'INPUT' || el.tagName === 'TEXTAREA') && el.value) s.push('val="' + el.value.substring(0, 50) + '"');
    if (el.tagName === 'SELECT' && el.selectedOptions.length) s.push('val="' + el.selectedOptions[0].text.substring(0, 50) + '"');
    return s.join(' ');
  }

  function walk(el, depth) {
    if (depth > 12 || !isVis(el)) return;
    var r = role(el);
    if (r) {
      var idx = refs.length;
      refs.push(el);
      var lb = label(el);
      var st = state(el);
      var indent = '';
      for (var i = 0; i < Math.min(depth, 8); i++) indent += '  ';
      var line = indent + '[' + idx + '] ' + r;
      if (lb) line += ' "' + lb.replace(/"/g, '\\"') + '"';
      if (st) line += ' ' + st;
      lines.push(line);
    }
    for (var c = 0; c < el.children.length; c++) {
      walk(el.children[c], depth + (r ? 1 : 0));
    }
  }

  walk(document.body, 0);
  if (lines.length > 500) {
    lines.length = 500;
    lines.push('... truncated (' + refs.length + ' total refs)');
  }
  return 'Page: ' + document.title + '\nURL: ' + location.href + '\n' + refs.length + ' elements\n---\n' + lines.join('\n');
})()"#,
    )
}

// --- the dispatcher ---

/// What a `click_ref` / `type_ref` / `select_ref` records into the
/// capture log after the script ran.
pub struct UiActionLog {
    pub action: String,
    pub ref_id: u64,
    pub value: Option<String>,
}

/// What one command does.  Every command yields a plan; unknown
/// actions and missing fields yield an error to write back.
pub enum DispatchPlan {
    /// Write `{"error": message}` as the result.
    WriteError { message: String },
    /// Open or steer the browser to this URL; when its domain is
    /// registered, that app becomes current.
    NavigateOpen { url: String, set_current: Option<String> },
    /// Run this script through the eval round-trip; optionally append a
    /// `ui-action` capture afterwards.
    RunScript { js: String, log: Option<UiActionLog> },
    /// Report whether a browser view exists and the known app names.
    Status,
    /// Run the batch passes over every app.
    GenerateEndpoints,
}

/// The plan at the specification level.
pub enum SpecPlan {
    WriteError(Seq<char>),
    NavigateOpen(Seq<char>, Option<Seq<char>>),
    RunScript(Seq<char>, Option<(Seq<char>, nat, Option<Seq<char>>)>),
    Status,
    GenerateEndpoints,
}

pub open spec fn plan_view(p: DispatchPlan) -> SpecPlan {
    match p {
        DispatchPlan::WriteError { message } => SpecPlan::WriteError(message@),
        DispatchPlan::NavigateOpen { url, set_current } => SpecPlan::NavigateOpen(
            url@,
            match set_current {
                Some(a) => Some(a@),
                None => None,
            },
        ),
        DispatchPlan::RunScript { js, log } => SpecPlan::RunScript(
            js@,
            match log {
                Some(l) => Some(
                    (l.action@, l.ref_id as nat, match l.value {
                        Some(v) => Some(v@),
                        None => None,
                    }),
                ),
                None => None,
            },
        ),
        DispatchPlan::Status => SpecPlan::Status,
        DispatchPlan::GenerateEndpoints => SpecPlan::GenerateEndpoints,
    }
}

pub open spec fn opt_str(o: Option<String>, default: Seq<char>) -> Seq<char> {
    match o {
        Some(s) => s@,
        None => default,
    }
}

/// The navigate plan: a missing or empty URL is an error; a URL
/// without a scheme prefix gets `https://`; an unparsable URL is an
/// error; else the browser opens it, and the registered app of its
/// domain (the empty domain when it has no host) becomes current.
pub open spec fn spec_navigate(c: Command, reg: Seq<(Seq<char>, Seq<char>)>) -> SpecPlan {
    let u = opt_str(c.url, Seq::empty());
    if u.len() == 0 {
        SpecPlan::WriteError("missing url"@)
    } else {
        let raw = if starts_with(u, "http"@) {
            u
        } else {
            "https://"@ + u
        };
        if crate::urlinfo::url_parse_of(raw) is None {
            SpecPlan::WriteError("invalid url"@)
        } else {
            let host = match url_host_of(raw) {
                Some(h) => h,
                None => Seq::empty(),
            };
            SpecPlan::NavigateOpen(raw, spec_lookup(reg, host))
        }
    }
}

/// The whole dispatch decision for one decoded command.
pub open spec fn spec_dispatch(c: Command, reg: Seq<(Seq<char>, Seq<char>)>) -> SpecPlan {
    let a = c.action@;
    if a == "navigate"@ {
        spec_navigate(c, reg)
    } else if a == "click"@ {
        SpecPlan::RunScript(spec_click_js(opt_str(c.selector, Seq::empty())), None)
    } else if a == "type"@ {
        SpecPlan::RunScript(
            spec_type_js(opt_str(c.selector, Seq::empty()), opt_str(c.value, Seq::empty())),
            None,
        )
    } else if a == "scroll"@ {
        let amount: int = match c.amount {
            Some(x) => x as int,
            None => 500,
        };
        let up = opt_str(c.direction, "down"@) == "up"@;
        SpecPlan::RunScript(
            spec_scroll_js(
                if up {
                    -amount
                } else {
                    amount
                },
            ),
            None,
        )
    } else if a == "eval"@ {
        SpecPlan::RunScript(opt_str(c.js, Seq::empty()), None)
    } else if a == "read_page"@ {
        SpecPlan::RunScript(spec_read_page_js(), None)
    } else if a == "read_ui"@ {
        SpecPlan::RunScript(spec_read_ui_js(), None)
    } else if a == "click_ref"@ {
        let r: nat = match c.ref_id {
            Some(x) => x as nat,
            None => 0,
        };
        SpecPlan::RunScript(spec_click_ref_js(r), Some(("click_ref"@, r, None)))
    } else if a == "type_ref"@ {
        let r: nat = match c.ref_id {
            Some(x) => x as nat,
            None => 0,
        };
        let v = opt_str(c.value, Seq::empty());
        SpecPlan::RunScript(spec_type_ref_js(r, v), Some(("type_ref"@, r, Some(v))))
    } else if a == "select_ref"@ {
        let r: nat = match c.ref_id {
            Some(x) => x as nat,
            None => 0,
        };
        let v = opt_str(c.value, Seq::empty());
        SpecPlan::RunScript(spec_select_ref_js(r, v), Some(("select_ref"@, r, Some(v))))
    } else if a == "get_cookies"@ {
        SpecPlan::RunScript(spec_cookies_js(), None)
    } else if a == "status"@ {
        SpecPlan::Status
    } else if a == "ws_send"@ {
        SpecPlan::RunScript(
            spec_ws_send_js(
                match c.index {
                    Some(x) => x as nat,
                    None => 0,
                },
                opt_str(c.message, Seq::empty()),
            ),
            None,
        )
    } else if a == "ws_list"@ {
        SpecPlan::RunScript(spec_ws_list_js(), None)
    } else if a == "generate_endpoints"@ {
        SpecPlan::GenerateEndpoints
    } else {
        SpecPlan::WriteError("unknown action: "@ + a)
    }
}

fn opt_str_exec<'a>(o: &'a Option<String>, default: &'a str) -> (r: &'a str)
    ensures
        r@ == opt_str(*o, default@),
{
    match o {
        Some(s) => s.as_str(),
        None => default,
    }
}

/// Decide what one command does, against the current domain registry.
pub fn dispatch_command(c: &Command, registry: &StrMap) -> (r: DispatchPlan)
    ensures
        plan_view(r) == spec_dispatch(*c, registry@),
{
    let ghost gd = spec_dispatch(*c, registry@);
    proof {
        reveal_strlit("");
        assert(""@ =~= Seq::<char>::empty());
    }
    let ac = to_chars(c.action.as_str());
    if chars_eq(&ac, &to_chars("navigate")) {
        let u = opt_str_exec(&c.url, "");
        let uc = to_chars(u);
        if uc.len() == 0 {
            let r = DispatchPlan::WriteError { message: String::from_str("missing url") };
            proof {
                assert(plan_view(r) == gd);
            }
            return r;
        }
        let raw: String = if starts_with_chars(&uc, &to_chars("http")) {
            chars_to_string(&uc)
        } else {
            let mut rc = to_chars("https://");
            push_all(&mut rc, &uc);
            chars_to_string(&rc)
        };
        match crate::urlinfo::parse_url(raw.as_str()) {
            None => {
                let r = DispatchPlan::WriteError { message: String::from_str("invalid url") };
                proof {
                    assert(plan_view(r) == gd);
                }
                r
            },
            Some(parts) => {
                let host: String = match parts.host {
                    Some(h) => h,
                    None => String::new(),
                };
                let set_current: Option<String> = match registry.get(&host) {
                    Some(app) => Some(app.clone()),
                    None => None,
                };
                let r = DispatchPlan::NavigateOpen { url: raw, set_current };
                proof {
                    assert(plan_view(r) == gd);
                }
                r
            },
        }
    } else if chars_eq(&ac, &to_chars("click")) {
        let r = DispatchPlan::RunScript { js: click_js(opt_str_exec(&c.selector, "")), log: None };
        proof {
            assert(plan_view(r) == gd);
        }
        r
    } else if chars_eq(&ac, &to_chars("type")) {
        let r = DispatchPlan::RunScript {
            js: type_js(opt_str_exec(&c.selector, ""), opt_str_exec(&c.value, "")),
            log: None,
        };
        proof {
            assert(plan_view(r) == gd);
        }
        r
    } else if chars_eq(&ac, &to_chars("scroll")) {
        let amount: i64 = match &c.amount {
            Some(x) => *x,
            None => 500,
        };
        let d = opt_str_exec(&c.direction, "down");
        let up = chars_eq(&to_chars(d), &to_chars("up"));
        let r = DispatchPlan::RunScript { js: scroll_js(amount, up), log: None };
        proof {
            assert(plan_view(r) == gd);
        }
        r
    } else if chars_eq(&ac, &to_chars("eval")) {
        let js = opt_str_exec(&c.js, "");
        let r = DispatchPlan::RunScript { js: chars_to_string(&to_chars(js)), log: None };
        proof {
            assert(plan_view(r) == gd);
        }
        r
    } else if chars_eq(&ac, &to_chars("read_page")) {
        let r = DispatchPlan::RunScript { js: read_page_js(), log: None };
        proof {
            assert(plan_view(r) == gd);
        }
        r
    } else if chars_eq(&ac, &to_chars("read_ui")) {
        let r = DispatchPlan::RunScript { js: read_ui_js(), log: None };
        proof {
            assert(plan_view(r) == gd);
        }
        r
    } else if chars_eq(&ac, &to_chars("click_ref")) {
        let rid: u64 = match &c.ref_id {
            Some(x) => *x,
            None => 0,
        };
        let r = DispatchPlan::RunScript {
            js: click_ref_js(rid),
            log: Some(
                UiActionLog { action: String::from_str("click_ref"), ref_id: rid, value: None },
            ),
        };
        proof {
            assert(plan_view(r) == gd);
        }
        r
    } else if chars_eq(&ac, &to_chars("type_ref")) {
        let rid: u64 = match &c.ref_id {
            Some(x) => *x,
            None => 0,
        };
        let v = opt_str_exec(&c.value, "");
        let r = DispatchPlan::RunScript {
            js: type_ref_js(rid, v),
            log: Some(
                UiActionLog {
                    action: String::from_str("type_ref"),
                    ref_id: rid,
                    value: Some(chars_to_string(&to_chars(v))),
                },
            ),
        };
        proof {
            assert(plan_view(r) == gd);
        }
        r
    } else if chars_eq(&ac, &to_chars("select_ref")) {
        let rid: u64 = match &c.ref_id {
            Some(x) => *x,
            None => 0,
        };
        let v = opt_str_exec(&c.value, "");
        let r = DispatchPlan::RunScript {
            js: select_ref_js(rid, v),
            log: Some(
                UiActionLog {
                    action: String::from_str("select_ref"),
                    ref_id: rid,
                    value: Some(chars_to_string(&to_chars(v))),
                },
            ),
        };
        proof {
            assert(plan_view(r) == gd);
        }
        r
    } else if chars_eq(&ac, &to_chars("get_cookies")) {
        let r = DispatchPlan::RunScript { js: cookies_js(), log: None };
        proof {
            assert(plan_view(r) == gd);
        }
        r
    } else if chars_eq(&ac, &to_chars("status")) {
        let r = DispatchPlan::Status;
        proof {
            assert(plan_view(r) == gd);
        }
        r
    } else if chars_eq(&ac, &to_chars("ws_send")) {
        let ix: u64 = match &c.index {
            Some(x) => *x,
            None => 0,
        };
        let r = DispatchPlan::RunScript {
            js: ws_send_js(ix, opt_str_exec(&c.message, "")),
            log: None,
        };
        proof {
            assert(plan_view(r) == gd);
        }
        r
    } else if chars_eq(&ac, &to_chars("ws_list")) {
        let r = DispatchPlan::RunScript { js: ws_list_js(), log: None };
        proof {
            assert(plan_view(r) == gd);
        }
        r
    } else if chars_eq(&ac, &to_chars("generate_endpoints")) {
        let r = DispatchPlan::GenerateEndpoints;
        proof {
            assert(plan_view(r) == gd);
        }
        r
    } else {
        let mut m = to_chars("unknown action: ");
        push_all(&mut m, &ac);
        let r = DispatchPlan::WriteError { message: chars_to_string(&m) };
        proof {
            assert(plan_view(r) == gd);
        }
        r
    }
}

/// The `ui-action` capture record written after a ref action, tying a
/// UI interaction to the API calls it triggers.
pub open spec fn spec_ui_action_record(
    action: Seq<char>,
    ref_id: nat,
    role: Seq<char>,
    label: Seq<char>,
    url: Seq<char>,
    timestamp: Seq<char>,
    value: Option<Seq<char>>,
) -> crate::shape::JsonView {
    crate::shape::JsonView::Obj(
        seq![
            ("type"@, crate::shape::JsonView::Str("ui-action"@)),
            ("action"@, crate::shape::JsonView::Str(action)),
            ("ref"@, crate::shape::JsonView::Num(dec_str(ref_id))),
            ("role"@, crate::shape::JsonView::Str(role)),
            ("label"@, crate::shape::JsonView::Str(label)),
            ("url"@, crate::shape::JsonView::Str(url)),
            ("timestamp"@, crate::shape::JsonView::Str(timestamp)),
        ] + (match value {
            Some(v) => seq![("value"@, crate::shape::JsonView::Str(v))],
            None => Seq::<(Seq<char>, crate::shape::JsonView)>::empty(),
        }),
    )
}

/// Build the `ui-action` record for one performed ref action.
pub fn ui_action_record(
    action: &str,
    ref_id: u64,
    role: &str,
    label: &str,
    url: &str,
    timestamp: &str,
    value: &Option<String>,
) -> (r: crate::shape::JsonValue)
    ensures
        crate::shape::json_view(r) == spec_ui_action_record(
            action@,
            ref_id as nat,
            role@,
            label@,
            url@,
            timestamp@,
            match value {
                Some(v) => Some(v@),
                None => None,
            },
        ),
{
    let mut fields: Vec<(String, crate::shape::JsonValue)> = Vec::new();
    fields.push(
        (String::from_str("type"), crate::shape::JsonValue::Str(String::from_str("ui-action"))),
    );
    fields.push(
        (String::from_str("action"), crate::shape::JsonValue::Str(chars_to_string(&to_chars(action)))),
    );
    let d = dec_chars(ref_id);
    fields.push((String::from_str("ref"), crate::shape::JsonValue::Num(chars_to_string(&d))));
    fields.push(
        (String::from_str("role"), crate::shape::JsonValue::Str(chars_to_string(&to_chars(role)))),
    );
    fields.push(
        (String::from_str("label"), crate::shape::JsonValue::Str(chars_to_string(&to_chars(label)))),
    );
    fields.push(
        (String::from_str("url"), crate::shape::JsonValue::Str(chars_to_string(&to_chars(url)))),
    );
    fields.push(
        (
            String::from_str("timestamp"),
            crate::shape::JsonValue::Str(chars_to_string(&to_chars(timestamp))),
        ),
    );
    match value {
        Some(v) => {
            fields.push((String::from_str("value"), crate::shape::JsonValue::Str(v.clone())));
        },
        None => {},
    }
    let ghost fv = fields@;
    let r = crate::shape::JsonValue::Obj(fields);
    proof {
        crate::shape::lemma_json_field_views_index(fv);
        let got = crate::shape::json_field_views(fv);
        let vv: Option<Seq<char>> = match value {
            Some(v) => Some(v@),
            None => None,
        };
        let want = seq![
            ("type"@, crate::shape::JsonView::Str("ui-action"@)),
            ("action"@, crate::shape::JsonView::Str(action@)),
            ("ref"@, crate::shape::JsonView::Num(dec_str(ref_id as nat))),
            ("role"@, crate::shape::JsonView::Str(role@)),
            ("label"@, crate::shape::JsonView::Str(label@)),
            ("url"@, crate::shape::JsonView::Str(url@)),
            ("timestamp"@, crate::shape::JsonView::Str(timestamp@)),
        ] + (match vv {
            Some(v) => seq![("value"@, crate::shape::JsonView::Str(v))],
            None => Seq::<(Seq<char>, crate::shape::JsonView)>::empty(),
        });
        assert(got.len() == want.len());
        assert forall|k: int| 0 <= k < got.len() implies got[k] == want[k] by {
            assert(got[k] == (fv[k].0@, crate::shape::json_view(fv[k].1)));
        }
        assert(got =~= want);
        assert(crate::shape::json_view(r) == spec_ui_action_record(
            action@,
            ref_id as nat,
            role@,
            label@,
            url@,
            timestamp@,
            vv,
        ));
    }
    r
}

/// Under well-formedness a removed id is no longer pending: the slot
/// cannot leak.
pub proof fn lemma_remove_gone(l: Seq<u64>, id: u64)
    requires
        forall|i: int, j: int| 0 <= i < j < l.len() ==> l[i] != l[j],
    ensures
        !spec_remove_id(l, id).contains(id),
    decreases l.len(),
{
    if l.len() == 0 {
    } else if l[0] == id {
        if l.drop_first().contains(id) {
            let w = choose|w: int| 0 <= w < l.drop_first().len() && l.drop_first()[w] == id;
            assert(l[w + 1] == id);
        }
    } else {
        assert(forall|i: int, j: int|
            0 <= i < j < l.drop_first().len() ==> l.drop_first()[i] == l[i + 1]
                && l.drop_first()[j] == l[j + 1]);
        lemma_remove_gone(l.drop_first(), id);
        let r = seq![l[0]] + spec_remove_id(l.drop_first(), id);
        if r.contains(id) {
            let w = choose|w: int| 0 <= w < r.len() && r[w] == id;
            assert(w > 0);
            assert(spec_remove_id(l.drop_first(), id)[w - 1] == id);
        }
    }
}

} // verus!
