//! What connecting promises: a profile carries the name of the network and the password
//! that was typed, the list shows the best of each network, and a password is asked for
//! where one is needed.

use vstd::prelude::*;
use crate::text;
use crate::wifi;
use crate::wifi::{Auth, Cipher, FoundNetwork, NetworkView, WifiError};

verus! {

/// What a reader of the profile takes a text for: five escapes stand for the characters
/// that they name, and everything else for itself.
pub open spec fn read_back(s: Seq<char>) -> Seq<char>
    decreases s.len(),
{
    if s.len() == 0 {
        seq![]
    } else if s[0] != '&' {
        seq![s[0]] + read_back(s.skip(1))
    } else if s.len() >= 5 && s.take(5) == seq!['&', 'a', 'm', 'p', ';'] {
        seq!['&'] + read_back(s.skip(5))
    } else if s.len() >= 4 && s.take(4) == seq!['&', 'l', 't', ';'] {
        seq!['<'] + read_back(s.skip(4))
    } else if s.len() >= 4 && s.take(4) == seq!['&', 'g', 't', ';'] {
        seq!['>'] + read_back(s.skip(4))
    } else if s.len() >= 6 && s.take(6) == seq!['&', 'q', 'u', 'o', 't', ';'] {
        seq!['"'] + read_back(s.skip(6))
    } else if s.len() >= 6 && s.take(6) == seq!['&', 'a', 'p', 'o', 's', ';'] {
        seq!['\''] + read_back(s.skip(6))
    } else {
        seq!['&'] + read_back(s.skip(1))
    }
}

/// A text that ends no element: it has no angle bracket.
pub open spec fn is_content(s: Seq<char>) -> bool {
    forall|i: int| 0 <= i < s.len() ==> #[trigger] s[i] != '<' && s[i] != '>'
}

proof fn lemma_marked_up_front(s: Seq<char>)
    requires
        s.len() > 0,
    ensures
        wifi::marked_up(s) == wifi::markup_of(s[0]) + wifi::marked_up(s.skip(1)),
    decreases s.len(),
{
    let f = s.drop_last();
    if f.len() == 0 {
        assert(s.skip(1) =~= Seq::<char>::empty());
        assert(wifi::marked_up(f) + wifi::markup_of(s.last()) =~= wifi::markup_of(s[0])
            + wifi::marked_up(s.skip(1)));
    } else {
        lemma_marked_up_front(f);
        assert(f.skip(1) =~= s.skip(1).drop_last());
        assert(wifi::marked_up(s) =~= wifi::markup_of(s[0]) + wifi::marked_up(s.skip(1)));
    }
}

proof fn lemma_escapes()
    ensures
        "&amp;"@ == seq!['&', 'a', 'm', 'p', ';'],
        "&lt;"@ == seq!['&', 'l', 't', ';'],
        "&gt;"@ == seq!['&', 'g', 't', ';'],
        "&quot;"@ == seq!['&', 'q', 'u', 'o', 't', ';'],
        "&apos;"@ == seq!['&', 'a', 'p', 'o', 's', ';'],
{
    reveal_strlit("&amp;");
    reveal_strlit("&lt;");
    reveal_strlit("&gt;");
    reveal_strlit("&quot;");
    reveal_strlit("&apos;");
    assert("&amp;"@ =~= seq!['&', 'a', 'm', 'p', ';']);
    assert("&lt;"@ =~= seq!['&', 'l', 't', ';']);
    assert("&gt;"@ =~= seq!['&', 'g', 't', ';']);
    assert("&quot;"@ =~= seq!['&', 'q', 'u', 'o', 't', ';']);
    assert("&apos;"@ =~= seq!['&', 'a', 'p', 'o', 's', ';']);
}

/// A reader of the profile gets back what was written into it.
pub proof fn law_markup_reads_back(s: Seq<char>)
    ensures
        read_back(wifi::marked_up(s)) == s,
        is_content(wifi::marked_up(s)),
    decreases s.len(),
{
    let m = wifi::marked_up(s);
    assert forall|i: int| 0 <= i < m.len() implies #[trigger] m[i] != '<' && m[i] != '>' by {
        wifi::law_markup_is_inert(s, i);
    }
    if s.len() > 0 {
        let rest = s.skip(1);
        let one = wifi::markup_of(s[0]);
        let r = wifi::marked_up(rest);
        lemma_marked_up_front(s);
        law_markup_reads_back(rest);
        lemma_escapes();
        assert(m.take(one.len() as int) =~= one);
        assert(m.skip(one.len() as int) =~= r);
        assert(m[0] == one[0]);
        if one.len() == 6 {
            assert(m.take(5)[1] == one[1] && m.take(5)[2] == one[2]);
            assert(m.take(4)[1] == one[1]);
            if s[0] == '\'' {
                assert(m.take(5)[2] != 'm');
            }
        } else if one.len() == 5 {
        } else if one.len() == 4 {
            assert(m.len() >= 5 ==> m.take(5)[1] == one[1]);
        }
        assert(read_back(m) =~= seq![s[0]] + read_back(r));
        assert(seq![s[0]] + rest =~= s);
    }
}

/// A profile carries what it is for: in the order of its elements it names the network
/// twice, says how that authenticates and encrypts, and has the password that was typed
/// for its key material.
pub proof fn law_profile_carries(n: NetworkView, password: Seq<char>)
    ensures
        exists|name: Seq<char>, again: Seq<char>, key: Seq<char>|
            #![trigger is_content(name), is_content(again), is_content(key)]
            {
                &&& is_content(name) && read_back(name) == n.ssid
                &&& is_content(again) && read_back(again) == n.ssid
                &&& is_content(key) && read_back(key) == password
                &&& wifi::profile_of(n, password)
                    == "<?xml version=\"1.0\"?>\n<WLANProfile xmlns=\"http://www.microsoft.com/networking/WLAN/profile/v1\">\n    <name>"@
                    + name + "</name>\n    <SSIDConfig>\n        <SSID>\n            <name>"@ + again
                    + "</name>\n        </SSID>\n    </SSIDConfig>\n    <connectionType>ESS</connectionType>\n    <connectionMode>manual</connectionMode>\n    <MSM>\n        <security>\n            <authEncryption>\n                <authentication>"@
                    + n.auth + "</authentication>\n                <encryption>"@ + n.cipher
                    + "</encryption>\n                <useOneX>false</useOneX>\n            </authEncryption>\n            <sharedKey>\n                <keyType>passPhrase</keyType>\n                <protected>false</protected>\n                <keyMaterial>"@
                    + key
                    + "</keyMaterial>\n            </sharedKey>\n        </security>\n    </MSM>\n</WLANProfile>"@
            },
{
    law_markup_reads_back(n.ssid);
    law_markup_reads_back(password);
    let name = wifi::marked_up(n.ssid);
    let key = wifi::marked_up(password);
    assert(is_content(name) && is_content(key));
}

/// Two passwords give two profiles, and so do two names.
pub proof fn law_profiles_differ(n: NetworkView, m: NetworkView, p: Seq<char>, q: Seq<char>)
    ensures
        p != q ==> wifi::profile_of(n, p) != wifi::profile_of(n, q),
        n.ssid != m.ssid ==> wifi::profile_of(n, p) != wifi::profile_of(m, q),
{
    law_markup_reads_back(p);
    law_markup_reads_back(q);
    law_markup_reads_back(n.ssid);
    law_markup_reads_back(m.ssid);
    let parts = wifi::profile_parts();
    let x = wifi::marked_up(n.ssid);
    let y = wifi::marked_up(m.ssid);
    if wifi::profile_of(n, p) == wifi::profile_of(n, q) {
        let a = parts[0] + x + parts[1] + x + parts[2] + n.auth + parts[3] + n.cipher + parts[4];
        lemma_cancel(a, wifi::marked_up(p), wifi::marked_up(q), parts[5]);
    }
    if wifi::profile_of(n, p) == wifi::profile_of(m, q) {
        let b = seq![x, parts[2], n.auth, parts[3], n.cipher, parts[4], wifi::marked_up(p), parts[5]];
        let c = seq![y, parts[2], m.auth, parts[3], m.cipher, parts[4], wifi::marked_up(q), parts[5]];
        lemma_name_first(parts[0], x, parts[1], b);
        lemma_name_first(parts[0], y, parts[1], c);
        let t = parts[1] + joined(b);
        let u = parts[1] + joined(c);
        assert(t[0] == '<' && u[0] == '<' && t.len() > 0 && u.len() > 0) by {
            reveal_strlit("</name>\n    <SSIDConfig>\n        <SSID>\n            <name>");
        }
        assert(x + t =~= (parts[0] + (x + t)).skip(parts[0].len() as int));
        assert(y + u =~= (parts[0] + (y + u)).skip(parts[0].len() as int));
        lemma_same_content(x, y, t, u);
    }
}

spec fn joined(b: Seq<Seq<char>>) -> Seq<char> {
    b[0] + b[1] + b[2] + b[3] + b[4] + b[5] + b[6] + b[7]
}

proof fn lemma_name_first(a: Seq<char>, x: Seq<char>, e: Seq<char>, b: Seq<Seq<char>>)
    ensures
        a + x + e + b[0] + b[1] + b[2] + b[3] + b[4] + b[5] + b[6] + b[7] == a + (x + (e + joined(b))),
{
    assert(a + x + e + b[0] + b[1] + b[2] + b[3] + b[4] + b[5] + b[6] + b[7] =~= a + (x + (e
        + joined(b))));
}

proof fn lemma_cancel(a: Seq<char>, x: Seq<char>, y: Seq<char>, b: Seq<char>)
    requires
        a + x + b == a + y + b,
    ensures
        x == y,
{
    let l = a + x + b;
    let r = a + y + b;
    assert(l.len() == a.len() + x.len() + b.len());
    assert(r.len() == a.len() + y.len() + b.len());
    assert(x =~= l.subrange(a.len() as int, (a.len() + x.len()) as int));
    assert(y =~= r.subrange(a.len() as int, (a.len() + x.len()) as int));
}

proof fn lemma_same_content(x: Seq<char>, y: Seq<char>, b: Seq<char>, c: Seq<char>)
    requires
        is_content(x),
        is_content(y),
        b.len() > 0 && b[0] == '<',
        c.len() > 0 && c[0] == '<',
        x + b == y + c,
    ensures
        x == y,
{
    if x.len() < y.len() {
        assert((x + b)[x.len() as int] == '<');
        assert((y + c)[x.len() as int] == y[x.len() as int]);
    }
    if y.len() < x.len() {
        assert((y + c)[y.len() as int] == '<');
        assert((x + b)[y.len() as int] == x[y.len() as int]);
    }
    assert(x =~= (x + b).take(x.len() as int));
    assert(y =~= (y + c).take(x.len() as int));
}

/// A profile can be written for a network with a key that is shared, and for no other: it
/// authenticates by WPA, WPA2 or WPA3 with a key, and encrypts by AES or TKIP.
pub proof fn law_profile_needs_shared_key(n: NetworkView)
    ensures
        wifi::profile_error(n) is None <==> (n.auth == "WPAPSK"@ || n.auth == "WPA2PSK"@ || n.auth
            == "WPA3SAE"@) && (n.cipher == "AES"@ || n.cipher == "TKIP"@),
        n.auth == "open"@ && n.cipher != "unsupported"@ ==> wifi::profile_error(n) == Some(
            WifiError::NoPasswordEntry,
        ),
        n.auth == "unsupported"@ || n.cipher == "unsupported"@ ==> wifi::profile_error(n) == Some(
            WifiError::UnknownSecurity,
        ),
        n.auth == "WPA2PSK"@ && n.cipher == "none"@ ==> wifi::profile_error(n) == Some(
            WifiError::UnknownCipher,
        ),
{
    lemma_security_names();
}

proof fn lemma_security_names()
    ensures
        "unsupported"@ != "WPAPSK"@,
        "unsupported"@ != "WPA2PSK"@,
        "unsupported"@ != "WPA3SAE"@,
        "unsupported"@ != "AES"@,
        "unsupported"@ != "TKIP"@,
        "unsupported"@ != "open"@,
        "unsupported"@ != "none"@,
        "open"@ != "WPAPSK"@,
        "open"@ != "WPA2PSK"@,
        "open"@ != "WPA3SAE"@,
        "none"@ != "AES"@,
        "none"@ != "TKIP"@,
{
    reveal_strlit("unsupported");
    reveal_strlit("WPAPSK");
    reveal_strlit("WPA2PSK");
    reveal_strlit("WPA3SAE");
    reveal_strlit("AES");
    reveal_strlit("TKIP");
    reveal_strlit("open");
    reveal_strlit("none");
    assert("open"@.len() == 4 && "none"@.len() == 4);
    assert("unsupported"@.len() == 11);
    assert("TKIP"@[0] == 'T' && "none"@[0] == 'n');
}

/// A network can be connected to unless its name is too long: with a saved profile or
/// where it is open, whatever is typed; else with a password, where a profile can be
/// written. Where the password is missing, that is what is said.
pub proof fn law_connectable(n: NetworkView, password: Option<Seq<char>>)
    ensures
        wifi::plan_error(n, password) is None <==> vstd::utf8::encode_utf8(n.ssid).len() <= 32 && (
        n.has_profile || !n.secure || (password is Some && password->0.len() > 0
            && wifi::profile_error(n) is None)),
        vstd::utf8::encode_utf8(n.ssid).len() > 32 <==> wifi::plan_error(n, password) == Some(
            WifiError::NameTooLong,
        ),
        wifi::plan_error(n, password) == Some(WifiError::PasswordMissing) <==> n.secure
            && !n.has_profile && (password is None || password->0.len() == 0)
            && vstd::utf8::encode_utf8(n.ssid).len() <= 32,
{
}

/// What is listed of a network is the best that was found of it: connected if any was, with
/// a profile if any that is as connected has one, and the strongest of these.
pub proof fn law_listed_is_best(ns: Seq<NetworkView>, i: int, k: int)
    requires
        0 <= i < ns.len(),
        0 <= k < wifi::listed(ns).len(),
        wifi::listed(ns)[k].ssid == ns[i].ssid,
    ensures
        ns[i].connected ==> wifi::listed(ns)[k].connected,
        ns[i].connected == wifi::listed(ns)[k].connected && ns[i].has_profile ==> wifi::listed(
            ns,
        )[k].has_profile,
        ns[i].connected == wifi::listed(ns)[k].connected && ns[i].has_profile == wifi::listed(
            ns,
        )[k].has_profile ==> ns[i].signal <= wifi::listed(ns)[k].signal,
{
    broadcast use vstd::seq_lib::group_to_multiset_ensures;

    let r = wifi::listed(ns);
    let o = wifi::one_of_each(ns);
    wifi::law_listed_in_order(ns);
    assert(r.contains(r[k]));
    assert(r.to_multiset().count(r[k]) > 0);
    assert(o.contains(r[k]));
    let m = choose|m: int| 0 <= m < o.len() && o[m] == r[k];
    wifi::law_best_is_listed(ns, i, m);
}

/// Every name that was found is listed, once, and each that is listed was found. Connected
/// networks stand first, then the stronger before the weaker, and of equally strong ones
/// the names are in order.
pub proof fn law_list(ns: Seq<NetworkView>)
    ensures
        ({
            let r = wifi::listed(ns);
            &&& forall|i: int| 0 <= i < ns.len() ==> wifi::names(r, (#[trigger] ns[i]).ssid)
            &&& forall|k: int| 0 <= k < r.len() ==> ns.contains(#[trigger] r[k])
            &&& forall|j: int, k: int|
                0 <= j < k < r.len() ==> (#[trigger] r[j]).ssid != (#[trigger] r[k]).ssid
            &&& forall|j: int, k: int|
                0 <= j < k < r.len() ==> {
                    &&& (#[trigger] r[k]).connected ==> (#[trigger] r[j]).connected
                    &&& r[j].connected == r[k].connected ==> r[k].signal <= r[j].signal
                    &&& r[j].connected == r[k].connected && r[k].signal == r[j].signal
                        ==> !text::before(r[k].ssid, r[j].ssid)
                }
        }),
{
    broadcast use vstd::seq_lib::group_to_multiset_ensures;

    let r = wifi::listed(ns);
    let o = wifi::one_of_each(ns);
    wifi::law_listed_in_order(ns);
    wifi::law_one_of_each(ns);
    assert forall|x: NetworkView| r.contains(x) <==> o.contains(x) by {
        assert(r.to_multiset().count(x) == o.to_multiset().count(x));
    }
    assert forall|i: int| 0 <= i < ns.len() implies wifi::names(r, (#[trigger] ns[i]).ssid) by {
        assert(wifi::names(o, ns[i].ssid));
        let k = choose|k: int| 0 <= k < o.len() && (#[trigger] o[k]).ssid == ns[i].ssid;
        assert(o.contains(o[k]));
        assert(r.contains(o[k]));
        let m = choose|m: int| 0 <= m < r.len() && r[m] == o[k];
        assert(r[m].ssid == ns[i].ssid);
    }
    assert forall|k: int| 0 <= k < r.len() implies ns.contains(#[trigger] r[k]) by {
        assert(r.contains(r[k]));
        let m = choose|m: int| 0 <= m < o.len() && o[m] == r[k];
        assert(ns.contains(o[m]));
    }
    assert forall|j: int, k: int| 0 <= j < k < r.len() implies (#[trigger] r[j]).ssid != (
    #[trigger] r[k]).ssid by {
        if r[j].ssid == r[k].ssid {
            assert(r.contains(r[j]) && r.contains(r[k]));
            let a = choose|a: int| 0 <= a < o.len() && o[a] == r[j];
            let b = choose|b: int| 0 <= b < o.len() && o[b] == r[k];
            assert(a == b);
            assert(r[j] == r[k]);
            lemma_twice(r, j, k);
            lemma_once(o, r[j]);
        }
    }
    assert forall|j: int, k: int| 0 <= j < k < r.len() implies {
        &&& (#[trigger] r[k]).connected ==> (#[trigger] r[j]).connected
        &&& r[j].connected == r[k].connected ==> r[k].signal <= r[j].signal
        &&& r[j].connected == r[k].connected && r[k].signal == r[j].signal ==> !text::before(
            r[k].ssid,
            r[j].ssid,
        )
    } by {
        assert(!wifi::by_use()(r[k], r[j]));
    }
}

/// What stands at two places is counted twice.
proof fn lemma_twice(s: Seq<NetworkView>, j: int, k: int)
    requires
        0 <= j < k < s.len(),
        s[j] == s[k],
    ensures
        s.to_multiset().count(s[j]) >= 2,
    decreases s.len(),
{
    broadcast use vstd::seq_lib::group_to_multiset_ensures;

    let f = s.drop_last();
    assert(s =~= f.push(s.last()));
    if k < f.len() {
        lemma_twice(f, j, k);
    } else {
        assert(f[j] == s[j]);
        assert(f.contains(s[j]));
    }
}

/// What stands at one place alone is counted once.
proof fn lemma_once(s: Seq<NetworkView>, x: NetworkView)
    requires
        forall|i: int, j: int|
            0 <= i < j < s.len() ==> (#[trigger] s[i]).ssid != (#[trigger] s[j]).ssid,
    ensures
        s.to_multiset().count(x) <= 1,
    decreases s.len(),
{
    broadcast use vstd::seq_lib::group_to_multiset_ensures;

    if s.len() > 0 {
        let f = s.drop_last();
        assert(s =~= f.push(s.last()));
        assert forall|i: int, j: int| 0 <= i < j < f.len() implies (#[trigger] f[i]).ssid != (
        #[trigger] f[j]).ssid by {
            assert(s[i].ssid != s[j].ssid);
        }
        lemma_once(f, x);
        if x == s.last() {
            assert(!f.contains(x)) by {
                if f.contains(x) {
                    let i = choose|i: int| 0 <= i < f.len() && f[i] == x;
                    assert(s[i].ssid != s[s.len() - 1].ssid);
                }
            }
        }
    } else {
        assert(s =~= Seq::empty());
    }
}

/// What is listed of a found network is what the system says of it: its name, whether it is
/// secure, connected and can be connected to, its profile, and its signal up to a full one.
/// A network that is not secure needs no name for its security; what the panel does not
/// know of a secure one is marked as such.
pub proof fn law_found_network(f: FoundNetwork)
    ensures
        ({
            let n = wifi::network_of(f);
            &&& n.ssid == f.ssid@ && n.secure == f.secure && n.has_profile == f.has_profile
            &&& n.connected == f.connected && n.connectable == f.connectable
            &&& n.profile_name == f.profile_name@
            &&& n.signal <= 100 && (f.signal <= 100 ==> n.signal == f.signal) && (f.signal > 100
                ==> n.signal == 100)
            &&& f.auth == Auth::WpaPsk ==> n.auth == "WPAPSK"@
            &&& f.auth == Auth::Wpa2Psk ==> n.auth == "WPA2PSK"@
            &&& f.auth == Auth::Wpa3Sae ==> n.auth == "WPA3SAE"@
            &&& f.auth == Auth::Open ==> n.auth == "open"@
            &&& f.auth == Auth::Other && f.secure ==> n.auth == "unsupported"@
            &&& f.auth == Auth::Other && !f.secure ==> n.auth == "open"@
            &&& f.cipher == Cipher::Tkip ==> n.cipher == "TKIP"@
            &&& f.cipher == Cipher::Plain ==> n.cipher == "none"@
            &&& f.cipher == Cipher::Ccmp || f.cipher == Cipher::Ccmp256 || f.cipher == Cipher::Gcmp
                || f.cipher == Cipher::Gcmp256 ==> n.cipher == "AES"@
            &&& f.cipher == Cipher::Other && f.secure ==> n.cipher == "unsupported"@
            &&& f.cipher == Cipher::Other && !f.secure ==> n.cipher == "none"@
        }),
{
}

/// A network without a name and one that cannot be joined are refused before anything is
/// tried.
pub proof fn law_refused_networks(n: NetworkView)
    ensures
        wifi::refusal(n) is None <==> n.ssid.len() > 0 && n.connectable,
        n.ssid.len() == 0 ==> wifi::refusal(n) == Some(WifiError::NoName),
        n.ssid.len() > 0 && !n.connectable ==> wifi::refusal(n) == Some(
            WifiError::NotConnectable,
        ),
{
}

/// What is not known by its number is like nothing that is, and each number stands for its
/// own.
pub proof fn law_security_numbers(a: i32, b: i32)
    ensures
        wifi::auth_numbered(a) == wifi::auth_numbered(b) ==> a == b || wifi::auth_numbered(a)
            is Other,
        wifi::cipher_numbered(a) == wifi::cipher_numbered(b) ==> a == b || wifi::cipher_numbered(a)
            is Other,
        wifi::auth_numbered(1) is Open && wifi::auth_numbered(4) is WpaPsk,
        wifi::auth_numbered(7) is Wpa2Psk && wifi::auth_numbered(9) is Wpa3Sae,
        wifi::cipher_numbered(0) is Plain && wifi::cipher_numbered(2) is Tkip,
        wifi::cipher_numbered(4) is Ccmp && wifi::cipher_numbered(8) is Gcmp,
        wifi::cipher_numbered(9) is Gcmp256 && wifi::cipher_numbered(10) is Ccmp256,
{
}

} // verus!
