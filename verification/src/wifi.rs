//! Wireless networks: which are listed, and what it takes to connect to one.

use vstd::prelude::*;
use crate::numbers;
use crate::order;
use crate::text;

verus! {

/// A wireless network of the list.
#[derive(Clone, Debug, PartialEq, Eq)]
pub struct WifiNetworkInfo {
    pub ssid: String,
    pub secure: bool,
    pub has_profile: bool,
    pub signal: u8,
    pub connected: bool,
    pub connectable: bool,
    pub profile_name: String,
    pub auth: String,
    pub cipher: String,
}

#[verifier::ext_equal]
pub ghost struct NetworkView {
    pub ssid: Seq<char>,
    pub secure: bool,
    pub has_profile: bool,
    pub signal: u8,
    pub connected: bool,
    pub connectable: bool,
    pub profile_name: Seq<char>,
    pub auth: Seq<char>,
    pub cipher: Seq<char>,
}

impl View for WifiNetworkInfo {
    type V = NetworkView;

    open spec fn view(&self) -> NetworkView {
        NetworkView {
            ssid: self.ssid@,
            secure: self.secure,
            has_profile: self.has_profile,
            signal: self.signal,
            connected: self.connected,
            connectable: self.connectable,
            profile_name: self.profile_name@,
            auth: self.auth@,
            cipher: self.cipher@,
        }
    }
}

pub open spec fn views(v: Seq<WifiNetworkInfo>) -> Seq<NetworkView> {
    v.map_values(|n: WifiNetworkInfo| n@)
}

#[derive(Clone, Debug, PartialEq, Eq)]
pub struct WifiNetworks {
    pub available: bool,
    pub networks: Vec<WifiNetworkInfo>,
    pub status: Option<String>,
}

impl Default for WifiNetworks {
    fn default() -> (r: WifiNetworks)
        ensures
            !r.available,
            r.networks@.len() == 0,
            r.status is None,
    {
        WifiNetworks { available: false, networks: Vec::new(), status: None }
    }
}

/// How a network tells who may enter.
#[derive(Clone, Copy, Debug, PartialEq, Eq, Structural)]
pub enum Auth {
    Open,
    WpaPsk,
    Wpa2Psk,
    Wpa3Sae,
    Other,
}

/// How a network keeps its traffic secret.
#[derive(Clone, Copy, Debug, PartialEq, Eq, Structural)]
pub enum Cipher {
    Plain,
    Tkip,
    Ccmp,
    Ccmp256,
    Gcmp,
    Gcmp256,
    Other,
}

/// The authentication that the system has a number for.
pub open spec fn auth_numbered(code: i32) -> Auth {
    if code == 1 {
        Auth::Open
    } else if code == 4 {
        Auth::WpaPsk
    } else if code == 7 {
        Auth::Wpa2Psk
    } else if code == 9 {
        Auth::Wpa3Sae
    } else {
        Auth::Other
    }
}

/// The cipher that the system has a number for.
pub open spec fn cipher_numbered(code: i32) -> Cipher {
    if code == 0 {
        Cipher::Plain
    } else if code == 2 {
        Cipher::Tkip
    } else if code == 4 {
        Cipher::Ccmp
    } else if code == 8 {
        Cipher::Gcmp
    } else if code == 9 {
        Cipher::Gcmp256
    } else if code == 10 {
        Cipher::Ccmp256
    } else {
        Cipher::Other
    }
}

/// The authentication that the system has a number for.
pub fn auth_of(code: i32) -> (r: Auth)
    ensures
        r == auth_numbered(code),
{
    if code == 1 {
        Auth::Open
    } else if code == 4 {
        Auth::WpaPsk
    } else if code == 7 {
        Auth::Wpa2Psk
    } else if code == 9 {
        Auth::Wpa3Sae
    } else {
        Auth::Other
    }
}

/// The cipher that the system has a number for.
pub fn cipher_of(code: i32) -> (r: Cipher)
    ensures
        r == cipher_numbered(code),
{
    if code == 0 {
        Cipher::Plain
    } else if code == 2 {
        Cipher::Tkip
    } else if code == 4 {
        Cipher::Ccmp
    } else if code == 8 {
        Cipher::Gcmp
    } else if code == 9 {
        Cipher::Gcmp256
    } else if code == 10 {
        Cipher::Ccmp256
    } else {
        Cipher::Other
    }
}

pub open spec fn auth_name(auth: Auth, secure: bool) -> Seq<char> {
    match auth {
        Auth::Open => "open"@,
        Auth::WpaPsk => "WPAPSK"@,
        Auth::Wpa2Psk => "WPA2PSK"@,
        Auth::Wpa3Sae => "WPA3SAE"@,
        Auth::Other => if secure {
            "unsupported"@
        } else {
            "open"@
        },
    }
}

pub open spec fn cipher_name(cipher: Cipher, secure: bool) -> Seq<char> {
    match cipher {
        Cipher::Plain => "none"@,
        Cipher::Tkip => "TKIP"@,
        Cipher::Ccmp | Cipher::Ccmp256 | Cipher::Gcmp | Cipher::Gcmp256 => "AES"@,
        Cipher::Other => if secure {
            "unsupported"@
        } else {
            "none"@
        },
    }
}

/// What an authentication is called in a profile.
pub fn auth_xml(auth: Auth, secure: bool) -> (r: &'static str)
    ensures
        r@ == auth_name(auth, secure),
{
    match auth {
        Auth::Open => "open",
        Auth::WpaPsk => "WPAPSK",
        Auth::Wpa2Psk => "WPA2PSK",
        Auth::Wpa3Sae => "WPA3SAE",
        Auth::Other => if secure {
            "unsupported"
        } else {
            "open"
        },
    }
}

/// What a cipher is called in a profile.
pub fn cipher_xml(cipher: Cipher, secure: bool) -> (r: &'static str)
    ensures
        r@ == cipher_name(cipher, secure),
{
    match cipher {
        Cipher::Plain => "none",
        Cipher::Tkip => "TKIP",
        Cipher::Ccmp | Cipher::Ccmp256 | Cipher::Gcmp | Cipher::Gcmp256 => "AES",
        Cipher::Other => if secure {
            "unsupported"
        } else {
            "none"
        },
    }
}

/// What the system says of a network.
#[derive(Debug)]
pub struct FoundNetwork {
    pub ssid: String,
    pub profile_name: String,
    pub secure: bool,
    pub has_profile: bool,
    pub connected: bool,
    pub connectable: bool,
    pub signal: u32,
    pub auth: Auth,
    pub cipher: Cipher,
}

/// The network of the list.
pub open spec fn network_of(f: FoundNetwork) -> NetworkView {
    NetworkView {
        ssid: f.ssid@,
        secure: f.secure,
        has_profile: f.has_profile,
        signal: if f.signal < 100 {
            f.signal as u8
        } else {
            100
        },
        connected: f.connected,
        connectable: f.connectable,
        profile_name: f.profile_name@,
        auth: auth_name(f.auth, f.secure),
        cipher: cipher_name(f.cipher, f.secure),
    }
}

/// A network of the list; one without a name has no place in it.
pub fn wifi_network_info(f: FoundNetwork) -> (r: Option<WifiNetworkInfo>)
    ensures
        match r {
            Some(n) => f.ssid@.len() > 0 && n@ == network_of(f),
            None => f.ssid@.len() == 0,
        },
{
    let chars = text::chars_of(f.ssid.as_str());
    if chars.len() == 0 {
        return None;
    }
    Some(
        WifiNetworkInfo {
            ssid: f.ssid,
            secure: f.secure,
            has_profile: f.has_profile,
            signal: if f.signal < 100 {
                f.signal as u8
            } else {
                100
            },
            connected: f.connected,
            connectable: f.connectable,
            profile_name: f.profile_name,
            auth: text::copy_text(auth_xml(f.auth, f.secure)),
            cipher: text::copy_text(cipher_xml(f.cipher, f.secure)),
        },
    )
}

/// `a` tells more of its network than `b`: it is connected, or has a profile, or a better
/// signal.
pub open spec fn outranks(a: NetworkView, b: NetworkView) -> bool {
    if a.connected != b.connected {
        a.connected
    } else if a.has_profile != b.has_profile {
        a.has_profile
    } else {
        a.signal > b.signal
    }
}

/// Whether one tells more of its network than another.
pub fn rank_above(a: &WifiNetworkInfo, b: &WifiNetworkInfo) -> (r: bool)
    ensures
        r == outranks(a@, b@),
{
    if a.connected != b.connected {
        a.connected
    } else if a.has_profile != b.has_profile {
        a.has_profile
    } else {
        a.signal > b.signal
    }
}

/// The first place of a name, or the length.
pub open spec fn place_of(ns: Seq<NetworkView>, ssid: Seq<char>) -> int
    decreases ns.len(),
{
    if ns.len() == 0 {
        0
    } else if ns[0].ssid == ssid {
        0
    } else {
        1 + place_of(ns.skip(1), ssid)
    }
}

/// The list with one more network: it takes the place of one with its name that tells
/// less, and is left out where that tells as much.
pub open spec fn merged(ns: Seq<NetworkView>, n: NetworkView) -> Seq<NetworkView> {
    let at = place_of(ns, n.ssid);
    if at < ns.len() {
        if outranks(n, ns[at]) {
            ns.update(at, n)
        } else {
            ns
        }
    } else {
        ns.push(n)
    }
}

/// One network of each name.
pub open spec fn one_of_each(ns: Seq<NetworkView>) -> Seq<NetworkView>
    decreases ns.len(),
{
    if ns.len() == 0 {
        seq![]
    } else {
        merged(one_of_each(ns.drop_last()), ns.last())
    }
}

/// Connected networks come first, then stronger ones, then names decide.
pub open spec fn network_first(a: NetworkView, b: NetworkView) -> bool {
    if a.connected != b.connected {
        a.connected
    } else if a.signal != b.signal {
        a.signal > b.signal
    } else {
        text::before(a.ssid, b.ssid)
    }
}

pub open spec fn by_use() -> spec_fn(NetworkView, NetworkView) -> bool {
    |a: NetworkView, b: NetworkView| network_first(a, b)
}

/// The networks of the list.
pub open spec fn listed(ns: Seq<NetworkView>) -> Seq<NetworkView> {
    order::arranged(one_of_each(ns), by_use())
}

proof fn lemma_place(ns: Seq<NetworkView>, ssid: Seq<char>)
    ensures
        0 <= place_of(ns, ssid) <= ns.len(),
        place_of(ns, ssid) < ns.len() ==> ns[place_of(ns, ssid)].ssid == ssid,
        forall|i: int| 0 <= i < place_of(ns, ssid) ==> (#[trigger] ns[i]).ssid != ssid,
    decreases ns.len(),
{
    if ns.len() > 0 && ns[0].ssid != ssid {
        lemma_place(ns.skip(1), ssid);
        assert forall|i: int| 0 <= i < place_of(ns, ssid) implies (#[trigger] ns[i]).ssid
            != ssid by {
            if i > 0 {
                assert(ns.skip(1)[i - 1] == ns[i]);
            }
        }
    }
}

fn merge(ns: &mut Vec<WifiNetworkInfo>, n: WifiNetworkInfo)
    ensures
        views(final(ns)@) == merged(views(old(ns)@), n@),
{
    let ghost was = ns@;
    let ghost all = views(ns@);
    let mut i: usize = 0;
    while i < ns.len() && !text::same(ns[i].ssid.as_str(), n.ssid.as_str())
        invariant
            ns@ == was,
            all == views(was),
            i <= ns@.len(),
            forall|k: int| 0 <= k < i ==> (#[trigger] all[k]).ssid != n@.ssid,
        decreases ns@.len() - i,
    {
        assert(all[i as int].ssid == ns@[i as int].ssid@);
        i += 1;
    }
    proof {
        lemma_place(all, n@.ssid);
        if i < all.len() {
            assert(all[i as int].ssid == n@.ssid);
        }
        assert(place_of(all, n@.ssid) == i);
    }
    if i < ns.len() {
        if rank_above(&n, &ns[i]) {
            assert(all[i as int] == ns@[i as int]@);
            ns.set(i, n);
            assert(views(ns@) =~= all.update(i as int, n@));
        } else {
            assert(all[i as int] == ns@[i as int]@);
        }
    } else {
        ns.push(n);
        assert(views(ns@) =~= all.push(n@));
    }
}

fn comes_first(a: &WifiNetworkInfo, b: &WifiNetworkInfo) -> (r: bool)
    ensures
        r == network_first(a@, b@),
{
    if a.connected != b.connected {
        a.connected
    } else if a.signal != b.signal {
        a.signal > b.signal
    } else {
        let x = text::chars_of(a.ssid.as_str());
        let y = text::chars_of(b.ssid.as_str());
        text::is_before(&x, &y)
    }
}

/// The networks of the list: one of each name, the connected one first and the stronger
/// before the weaker.
pub fn network_list(found: Vec<WifiNetworkInfo>) -> (r: Vec<WifiNetworkInfo>)
    ensures
        views(r@) == listed(views(found@)),
{
    let ghost all = views(found@);
    let n: usize = found.len();
    let mut rest = order::reversed(found);
    let mut out: Vec<WifiNetworkInfo> = Vec::new();
    let mut i: usize = 0;
    assert(views(out@) =~= one_of_each(all.take(0)));
    while i < n
        invariant
            n == all.len(),
            all == views(found@),
            i <= n,
            rest@.len() == n - i,
            rest@ == found@.skip(i as int).reverse(),
            views(out@) == one_of_each(all.take(i as int)),
        decreases n - i,
    {
        let ghost was = rest@;
        match rest.pop() {
            Some(x) => {
                proof {
                    assert(was.last() == found@[i as int]);
                    assert(rest@ =~= found@.skip(i as int + 1).reverse());
                    assert(all.take(i as int + 1).drop_last() =~= all.take(i as int));
                    assert(all.take(i as int + 1).last() == x@);
                }
                merge(&mut out, x);
                i += 1;
            },
            None => {
                i = n;
                assert(false);
            },
        }
    }
    assert(all.take(i as int) =~= all);
    let ghost unsorted = out@;
    let ghost lt = |a: WifiNetworkInfo, b: WifiNetworkInfo| network_first(a@, b@);
    let r = order::stable_sort(out, comes_first, Ghost(lt));
    proof {
        order::lemma_arranged_map(unsorted, lt, |n: WifiNetworkInfo| n@, by_use());
    }
    r
}

/// Why a network cannot be connected to.
#[derive(Clone, Copy, Debug, PartialEq, Eq, Structural)]
pub enum WifiError {
    NoName,
    NotConnectable,
    NoAdapter,
    NameTooLong,
    PasswordMissing,
    /// The authentication is one that the panel does not know.
    UnknownSecurity,
    /// The authentication is one that takes no password.
    NoPasswordEntry,
    /// The encryption is one that the panel does not write down.
    UnknownCipher,
}

pub open spec fn error_text(e: WifiError) -> Seq<char> {
    match e {
        WifiError::NoName => "网络名称为空"@,
        WifiError::NotConnectable => "该网络当前不可连接"@,
        WifiError::NoAdapter => "未检测到 Wi-Fi 适配器"@,
        WifiError::NameTooLong => "Wi-Fi 名称过长"@,
        WifiError::PasswordMissing => "请输入网络密码"@,
        WifiError::UnknownSecurity => "当前网络的认证方式需要打开 Windows 网络设置连接"@,
        WifiError::NoPasswordEntry => "当前网络不支持在面板内输入密码连接"@,
        WifiError::UnknownCipher => "当前网络的加密方式需要打开 Windows 网络设置连接"@,
    }
}

impl WifiError {
    /// What the user is told.
    pub fn message(self) -> (r: &'static str)
        ensures
            r@ == error_text(self),
    {
        match self {
            WifiError::NoName => "网络名称为空",
            WifiError::NotConnectable => "该网络当前不可连接",
            WifiError::NoAdapter => "未检测到 Wi-Fi 适配器",
            WifiError::NameTooLong => "Wi-Fi 名称过长",
            WifiError::PasswordMissing => "请输入网络密码",
            WifiError::UnknownSecurity => "当前网络的认证方式需要打开 Windows 网络设置连接",
            WifiError::NoPasswordEntry => "当前网络不支持在面板内输入密码连接",
            WifiError::UnknownCipher => "当前网络的加密方式需要打开 Windows 网络设置连接",
        }
    }
}

/// What the user is told when the system refuses.
pub fn wlan_error(action: &str, code: u32) -> (r: String)
    ensures
        r@ == action@ + "（错误 "@ + numbers::decimal(code as nat) + "）"@,
{
    let mut out = text::chars_of(action);
    text::add_text(&mut out, "（错误 ");
    numbers::add_decimal(&mut out, code as u64);
    text::add_text(&mut out, "）");
    text::string_of(&out)
}

/// How a character is written in a profile.
pub open spec fn markup_of(c: char) -> Seq<char> {
    if c == '&' {
        "&amp;"@
    } else if c == '<' {
        "&lt;"@
    } else if c == '>' {
        "&gt;"@
    } else if c == '"' {
        "&quot;"@
    } else if c == '\'' {
        "&apos;"@
    } else {
        seq![c]
    }
}

/// How a text is written in a profile.
pub open spec fn marked_up(s: Seq<char>) -> Seq<char>
    decreases s.len(),
{
    if s.len() == 0 {
        seq![]
    } else {
        marked_up(s.drop_last()) + markup_of(s.last())
    }
}

fn add_markup(out: &mut Vec<char>, value: &str)
    ensures
        final(out)@ == old(out)@ + marked_up(value@),
{
    let ghost start = out@;
    let v = text::chars_of(value);
    let mut i: usize = 0;
    assert(out@ =~= start + marked_up(v@.take(0)));
    while i < v.len()
        invariant
            i <= v@.len(),
            out@ == start + marked_up(v@.take(i as int)),
        decreases v@.len() - i,
    {
        let ghost was = out@;
        let c: char = v[i];
        if c == '&' {
            text::add_text(out, "&amp;");
        } else if c == '<' {
            text::add_text(out, "&lt;");
        } else if c == '>' {
            text::add_text(out, "&gt;");
        } else if c == '"' {
            text::add_text(out, "&quot;");
        } else if c == '\'' {
            text::add_text(out, "&apos;");
        } else {
            out.push(c);
        }
        proof {
            assert(out@ =~= was + markup_of(c));
            assert(v@.take(i as int + 1).drop_last() =~= v@.take(i as int));
            assert(out@ =~= start + marked_up(v@.take(i as int + 1)));
        }
        i += 1;
    }
    assert(v@.take(i as int) =~= v@);
}

/// A text as it is written in a profile.
pub fn xml_escape(value: &str) -> (r: String)
    ensures
        r@ == marked_up(value@),
{
    let mut out: Vec<char> = Vec::new();
    add_markup(&mut out, value);
    assert(out@ =~= marked_up(value@));
    text::string_of(&out)
}

/// Why no profile can be written for a network.
pub open spec fn profile_error(n: NetworkView) -> Option<WifiError> {
    if n.auth == "unsupported"@ || n.cipher == "unsupported"@ {
        Some(WifiError::UnknownSecurity)
    } else if n.auth != "WPAPSK"@ && n.auth != "WPA2PSK"@ && n.auth != "WPA3SAE"@ {
        Some(WifiError::NoPasswordEntry)
    } else if n.cipher != "AES"@ && n.cipher != "TKIP"@ {
        Some(WifiError::UnknownCipher)
    } else {
        None
    }
}

/// The parts of a profile between what it is filled with.
pub open spec fn profile_parts() -> Seq<Seq<char>> {
    seq![
        "<?xml version=\"1.0\"?>\n<WLANProfile xmlns=\"http://www.microsoft.com/networking/WLAN/profile/v1\">\n    <name>"@,
        "</name>\n    <SSIDConfig>\n        <SSID>\n            <name>"@,
        "</name>\n        </SSID>\n    </SSIDConfig>\n    <connectionType>ESS</connectionType>\n    <connectionMode>manual</connectionMode>\n    <MSM>\n        <security>\n            <authEncryption>\n                <authentication>"@,
        "</authentication>\n                <encryption>"@,
        "</encryption>\n                <useOneX>false</useOneX>\n            </authEncryption>\n            <sharedKey>\n                <keyType>passPhrase</keyType>\n                <protected>false</protected>\n                <keyMaterial>"@,
        "</keyMaterial>\n            </sharedKey>\n        </security>\n    </MSM>\n</WLANProfile>"@,
    ]
}

/// The profile with which the system connects to a network by a password.
pub open spec fn profile_of(n: NetworkView, password: Seq<char>) -> Seq<char> {
    let p = profile_parts();
    p[0] + marked_up(n.ssid) + p[1] + marked_up(n.ssid) + p[2] + n.auth + p[3] + n.cipher + p[4]
        + marked_up(password) + p[5]
}

/// The profile with which the system connects to a network by a password.
pub fn wifi_profile_xml(network: &WifiNetworkInfo, password: &str) -> (r: Result<
    String,
    WifiError,
>)
    ensures
        match r {
            Ok(xml) => profile_error(network@) is None && xml@ == profile_of(
                network@,
                password@,
            ),
            Err(e) => profile_error(network@) == Some(e),
        },
{
    let auth = network.auth.as_str();
    let cipher = network.cipher.as_str();
    if text::same(auth, "unsupported") || text::same(cipher, "unsupported") {
        return Err(WifiError::UnknownSecurity);
    }
    if !text::same(auth, "WPAPSK") && !text::same(auth, "WPA2PSK") && !text::same(auth, "WPA3SAE") {
        return Err(WifiError::NoPasswordEntry);
    }
    if !text::same(cipher, "AES") && !text::same(cipher, "TKIP") {
        return Err(WifiError::UnknownCipher);
    }
    let mut out: Vec<char> = text::chars_of(
        "<?xml version=\"1.0\"?>\n<WLANProfile xmlns=\"http://www.microsoft.com/networking/WLAN/profile/v1\">\n    <name>",
    );
    add_markup(&mut out, network.ssid.as_str());
    text::add_text(&mut out, "</name>\n    <SSIDConfig>\n        <SSID>\n            <name>");
    add_markup(&mut out, network.ssid.as_str());
    text::add_text(
        &mut out,
        "</name>\n        </SSID>\n    </SSIDConfig>\n    <connectionType>ESS</connectionType>\n    <connectionMode>manual</connectionMode>\n    <MSM>\n        <security>\n            <authEncryption>\n                <authentication>",
    );
    text::add_text(&mut out, auth);
    text::add_text(&mut out, "</authentication>\n                <encryption>");
    text::add_text(&mut out, cipher);
    text::add_text(
        &mut out,
        "</encryption>\n                <useOneX>false</useOneX>\n            </authEncryption>\n            <sharedKey>\n                <keyType>passPhrase</keyType>\n                <protected>false</protected>\n                <keyMaterial>",
    );
    add_markup(&mut out, password);
    text::add_text(
        &mut out,
        "</keyMaterial>\n            </sharedKey>\n        </security>\n    </MSM>\n</WLANProfile>",
    );
    Ok(text::string_of(&out))
}

/// Why a network is not even tried.
pub open spec fn refusal(n: NetworkView) -> Option<WifiError> {
    if n.ssid.len() == 0 {
        Some(WifiError::NoName)
    } else if !n.connectable {
        Some(WifiError::NotConnectable)
    } else {
        None
    }
}

/// Whether a network can be tried at all.
pub fn check_network(network: &WifiNetworkInfo) -> (r: Result<(), WifiError>)
    ensures
        match r {
            Ok(_) => refusal(network@) is None,
            Err(e) => refusal(network@) == Some(e),
        },
{
    let name = text::chars_of(network.ssid.as_str());
    if name.len() == 0 {
        return Err(WifiError::NoName);
    }
    if !network.connectable {
        return Err(WifiError::NotConnectable);
    }
    Ok(())
}

/// How a network is connected to.
#[derive(Debug)]
pub enum ConnectPlan {
    /// By the profile of this name that the system has.
    Saved(String),
    /// By a profile of this name that is written first.
    NewProfile(String, String),
    /// By this name alone.
    OpenNetwork(Vec<u8>),
}

/// The most bytes that the name of a network has.
pub const MAX_SSID_BYTES: usize = 32;

/// Why there is no way to connect to a network with what the user has typed.
pub open spec fn plan_error(n: NetworkView, password: Option<Seq<char>>) -> Option<WifiError> {
    if vstd::utf8::encode_utf8(n.ssid).len() > MAX_SSID_BYTES {
        Some(WifiError::NameTooLong)
    } else if n.has_profile || !n.secure {
        None
    } else if password is None || password->Some_0.len() == 0 {
        Some(WifiError::PasswordMissing)
    } else {
        profile_error(n)
    }
}

/// How a network is connected to: by a saved profile where there is one, by a new one with
/// the password where one is needed, and by its name where it is open.
pub fn connection_plan(network: &WifiNetworkInfo, password: Option<&str>) -> (r: Result<
    ConnectPlan,
    WifiError,
>)
    ensures
        ({
            let n = network@;
            let typed = text::opt_str(password);
            match r {
                Err(e) => plan_error(n, typed) == Some(e),
                Ok(plan) => plan_error(n, typed) is None && match plan {
                    ConnectPlan::Saved(name) => n.has_profile && name@ == (if n.profile_name.len()
                        == 0 {
                        n.ssid
                    } else {
                        n.profile_name
                    }),
                    ConnectPlan::NewProfile(xml, name) => !n.has_profile && n.secure && xml@
                        == profile_of(n, typed->Some_0) && name@ == n.ssid,
                    ConnectPlan::OpenNetwork(bytes) => !n.has_profile && !n.secure && bytes@
                        == vstd::utf8::encode_utf8(n.ssid),
                },
            }
        }),
{
    let bytes = network.ssid.as_str().as_bytes();
    if bytes.len() > MAX_SSID_BYTES {
        return Err(WifiError::NameTooLong);
    }
    if network.has_profile {
        let given = text::chars_of(network.profile_name.as_str());
        let name: String = if given.len() == 0 {
            text::copy_text(network.ssid.as_str())
        } else {
            text::copy_text(network.profile_name.as_str())
        };
        return Ok(ConnectPlan::Saved(name));
    }
    if network.secure {
        let typed: &str = match password {
            Some(p) => p,
            None => {
                return Err(WifiError::PasswordMissing);
            },
        };
        let chars = text::chars_of(typed);
        if chars.len() == 0 {
            return Err(WifiError::PasswordMissing);
        }
        return match wifi_profile_xml(network, typed) {
            Ok(xml) => Ok(ConnectPlan::NewProfile(xml, text::copy_text(network.ssid.as_str()))),
            Err(e) => Err(e),
        };
    }
    let mut out: Vec<u8> = Vec::new();
    let mut i: usize = 0;
    while i < bytes.len()
        invariant
            i <= bytes@.len(),
            out@ == bytes@.take(i as int),
        decreases bytes@.len() - i,
    {
        out.push(bytes[i]);
        assert(bytes@.take(i as int + 1) =~= bytes@.take(i as int).push(bytes@[i as int]));
        i += 1;
    }
    assert(bytes@.take(i as int) =~= bytes@);
    Ok(ConnectPlan::OpenNetwork(out))
}

pub open spec fn names(ns: Seq<NetworkView>, ssid: Seq<char>) -> bool {
    exists|i: int| 0 <= i < ns.len() && (#[trigger] ns[i]).ssid == ssid
}

/// No two of the list have the same name, every name that was found is in it, and each of
/// the list was found.
pub proof fn law_one_of_each(ns: Seq<NetworkView>)
    ensures
        forall|i: int, j: int|
            0 <= i < j < one_of_each(ns).len() ==> (#[trigger] one_of_each(ns)[i]).ssid != (
            #[trigger] one_of_each(ns)[j]).ssid,
        forall|i: int| 0 <= i < ns.len() ==> names(one_of_each(ns), (#[trigger] ns[i]).ssid),
        forall|i: int|
            0 <= i < one_of_each(ns).len() ==> ns.contains(#[trigger] one_of_each(ns)[i]),
    decreases ns.len(),
{
    if ns.len() > 0 {
        let front = ns.drop_last();
        let f = one_of_each(front);
        let n = ns.last();
        let r = one_of_each(ns);
        law_one_of_each(front);
        lemma_place(f, n.ssid);
        let at = place_of(f, n.ssid);
        assert forall|i: int, j: int| 0 <= i < j < r.len() implies (#[trigger] r[i]).ssid != (
        #[trigger] r[j]).ssid by {
            if j < f.len() {
                assert(f[i].ssid != f[j].ssid);
                assert(r[i].ssid == f[i].ssid && r[j].ssid == f[j].ssid);
            } else {
                assert(f[i].ssid != n.ssid);
            }
        }
        assert forall|i: int| 0 <= i < ns.len() implies names(r, (#[trigger] ns[i]).ssid) by {
            if i < front.len() {
                assert(front[i] == ns[i]);
                let k = choose|k: int| 0 <= k < f.len() && (#[trigger] f[k]).ssid == ns[i].ssid;
                assert(r[k].ssid == ns[i].ssid);
            } else if at < f.len() {
                assert(r[at].ssid == n.ssid);
            } else {
                assert(r[r.len() - 1] == n);
            }
        }
        assert forall|i: int| 0 <= i < r.len() implies ns.contains(#[trigger] r[i]) by {
            if r[i] == n {
                assert(ns[ns.len() - 1] == n);
            } else {
                assert(r[i] == f[i]);
                assert(front.contains(f[i]));
                let k = choose|k: int| 0 <= k < front.len() && front[k] == f[i];
                assert(ns[k] == f[i]);
            }
        }
    }
}

/// Nothing that was found of a network outranks what is listed of it.
pub proof fn law_best_is_listed(ns: Seq<NetworkView>, i: int, k: int)
    requires
        0 <= i < ns.len(),
        0 <= k < one_of_each(ns).len(),
        one_of_each(ns)[k].ssid == ns[i].ssid,
    ensures
        !outranks(ns[i], one_of_each(ns)[k]),
    decreases ns.len(),
{
    let front = ns.drop_last();
    let f = one_of_each(front);
    let n = ns.last();
    let r = one_of_each(ns);
    lemma_place(f, n.ssid);
    law_one_of_each(front);
    law_one_of_each(ns);
    let at = place_of(f, n.ssid);
    if k < f.len() {
        assert(r[k].ssid == f[k].ssid);
    }
    if i < front.len() {
        assert(front[i] == ns[i]);
        assert(names(f, ns[i].ssid));
        let j = choose|j: int| 0 <= j < f.len() && (#[trigger] f[j]).ssid == ns[i].ssid;
        assert(r[j].ssid == ns[i].ssid);
        assert(j == k);
        law_best_is_listed(front, i, k);
    } else {
        if at < f.len() {
            assert(r[at].ssid == n.ssid);
            assert(at == k);
        }
    }
}

proof fn lemma_network_order(a: NetworkView, b: NetworkView, c: NetworkView)
    ensures
        !network_first(a, a),
        network_first(a, b) && network_first(b, c) ==> network_first(a, c),
        !network_first(a, b) && !network_first(b, c) ==> !network_first(a, c),
{
    text::lemma_before_total(a.ssid, a.ssid);
    if text::before(a.ssid, b.ssid) && text::before(b.ssid, c.ssid) {
        text::lemma_before_trans(a.ssid, b.ssid, c.ssid);
    }
    if !text::before(a.ssid, b.ssid) && !text::before(b.ssid, c.ssid) {
        text::lemma_not_before_trans(a.ssid, b.ssid, c.ssid);
    }
}

/// The list is in order: connected networks first, then the stronger ones.
pub proof fn law_listed_in_order(ns: Seq<NetworkView>)
    ensures
        order::in_order(listed(ns), by_use()),
        listed(ns).to_multiset() == one_of_each(ns).to_multiset(),
{
    let lt = by_use();
    assert forall|a: NetworkView| !#[trigger] lt(a, a) by {
        lemma_network_order(a, a, a);
    }
    assert forall|a: NetworkView, b: NetworkView, c: NetworkView| #[trigger] lt(a, b)
        && #[trigger] lt(b, c) implies lt(a, c) by {
        lemma_network_order(a, b, c);
    }
    assert forall|a: NetworkView, b: NetworkView, c: NetworkView| !#[trigger] lt(a, b)
        && !#[trigger] lt(b, c) implies !lt(a, c) by {
        lemma_network_order(a, b, c);
    }
    order::lemma_arranged_in_order(one_of_each(ns), lt);
    order::lemma_arranged_multiset(one_of_each(ns), lt);
}

/// What a text is filled in with cannot end or begin an element of the profile.
pub proof fn law_markup_is_inert(s: Seq<char>, i: int)
    requires
        0 <= i < marked_up(s).len(),
    ensures
        marked_up(s)[i] != '<',
        marked_up(s)[i] != '>',
        marked_up(s)[i] != '"',
        marked_up(s)[i] != '\'',
    decreases s.len(),
{
    let front = s.drop_last();
    if i < marked_up(front).len() {
        law_markup_is_inert(front, i);
    } else {
        reveal_strlit("&amp;");
        reveal_strlit("&lt;");
        reveal_strlit("&gt;");
        reveal_strlit("&quot;");
        reveal_strlit("&apos;");
        assert(marked_up(s)[i] == markup_of(s.last())[i - marked_up(front).len()]);
    }
}

/// A network with a saved profile, and an open one, never asks for a password.
pub proof fn law_password_only_where_needed(n: NetworkView, password: Option<Seq<char>>)
    requires
        plan_error(n, password) == Some(WifiError::PasswordMissing),
    ensures
        n.secure,
        !n.has_profile,
{
}

} // verus!
