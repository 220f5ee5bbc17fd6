//! NetworkManager: what its D-Bus answers mean, which settings are sent to it,
//! and the steps of a connect.

use vstd::prelude::*;
use vstd::string::*;

use crate::backend;
use crate::config::{NetworkDef, NetworkModel};
use crate::dict::Dict;
use crate::flow;
use crate::text;

verus! {

broadcast use crate::text::lemma_views_push;

// ---- Values and settings -------------------------------------------------

/// A value of a settings dictionary.
#[derive(Debug, PartialEq, Eq)]
pub enum Setting {
    U8(u8),
    Bool(bool),
    Text(String),
    Array(Vec<Setting>),
    /// A value of another kind, which only passes through: the number under
    /// which the caller keeps it.
    Other(usize),
}

pub enum SettingModel {
    U8(u8),
    Bool(bool),
    Text(Seq<char>),
    Array(Seq<SettingModel>),
    Other(usize),
}

/// The model of a value.
pub open spec fn model(v: Setting) -> SettingModel
    decreases v,
{
    match v {
        Setting::U8(b) => SettingModel::U8(b),
        Setting::Bool(b) => SettingModel::Bool(b),
        Setting::Text(t) => SettingModel::Text(t@),
        Setting::Array(a) => SettingModel::Array(
            Seq::new(
                a@.len(),
                |i: int|
                    if 0 <= i < a@.len() {
                        model(a@[i])
                    } else {
                        SettingModel::Other(0)
                    },
            ),
        ),
        Setting::Other(n) => SettingModel::Other(n),
    }
}

impl View for Setting {
    type V = SettingModel;

    open spec fn view(&self) -> SettingModel {
        model(*self)
    }
}

/// The settings of a connection profile: sections of named values.
pub type SettingsMap = Dict<Dict<Setting>>;

/// A section of the settings.
pub type SectionModel = Map<Seq<char>, SettingModel>;

/// The settings of a connection profile.
pub type ConnectionModel = Map<Seq<char>, SectionModel>;

/// An array of bytes.
pub open spec fn bytes_value(b: Seq<u8>) -> SettingModel {
    SettingModel::Array(b.map_values(|x: u8| SettingModel::U8(x)))
}

/// An array of one text.
pub open spec fn one_text(s: Seq<char>) -> SettingModel {
    SettingModel::Array(seq![SettingModel::Text(s)])
}

/// The bytes in a value, where it is an array of nothing but bytes.
pub open spec fn bytes_in(v: SettingModel) -> Option<Seq<u8>> {
    match v {
        SettingModel::Array(a) => if forall|i: int| 0 <= i < a.len() ==> (#[trigger] a[i]) is U8 {
            Some(a.map_values(|x: SettingModel| x->U8_0))
        } else {
            None
        },
        _ => None,
    }
}

/// Extract a byte array (SSID / CA cert blob) from a settings dict value.
pub fn value_bytes(v: &Setting) -> (r: Option<Vec<u8>>)
    ensures
        crate::util::opt_bytes(r) == bytes_in(v@),
{
    match v {
        Setting::Array(a) => {
            let ghost all = v@->Array_0;
            let mut out: Vec<u8> = Vec::new();
            let mut i: usize = 0;
            while i < a.len()
                invariant
                    i <= a@.len(),
                    *v == Setting::Array(*a),
                    all == v@->Array_0,
                    all.len() == a@.len(),
                    out@.len() == i,
                    forall|j: int|
                        0 <= j < i ==> (#[trigger] all[j]) is U8 && all[j]->U8_0 == out@[j],
                decreases a@.len() - i,
            {
                assert(all[i as int] == a@[i as int]@);
                match &a[i] {
                    Setting::U8(b) => out.push(*b),
                    _ => {
                        assert(!(all[i as int] is U8));
                        return None;
                    },
                }
                i += 1;
            }
            assert(out@ =~= all.map_values(|x: SettingModel| x->U8_0));
            Some(out)
        },
        _ => None,
    }
}

fn bytes_of(s: &str) -> (r: Setting)
    ensures
        r@ == bytes_value(s.spec_bytes()),
{
    let mut bytes: Vec<u8> = Vec::new();
    text::push_bytes(&mut bytes, s);
    let mut out: Vec<Setting> = Vec::new();
    let mut i: usize = 0;
    assert(bytes@ =~= s.spec_bytes());
    while i < bytes.len()
        invariant
            i <= bytes@.len(),
            out@.len() == i,
            forall|j: int| 0 <= j < i ==> #[trigger] out@[j] == Setting::U8(bytes@[j]),
        decreases bytes@.len() - i,
    {
        out.push(Setting::U8(bytes[i]));
        i += 1;
    }
    let r = Setting::Array(out);
    proof {
        reveal_with_fuel(model, 2);
    }
    assert(r@->Array_0 =~= bytes_value(bytes@)->Array_0);
    r
}

fn list_of_one(s: &str) -> (r: Setting)
    ensures
        r@ == one_text(s@),
{
    let mut out: Vec<Setting> = Vec::new();
    out.push(Setting::Text(s.to_string()));
    let r = Setting::Array(out);
    proof {
        reveal_with_fuel(model, 2);
    }
    assert(r@->Array_0 =~= one_text(s@)->Array_0);
    r
}

fn text_value(s: &str) -> (r: Setting)
    ensures
        r@ == SettingModel::Text(s@),
{
    Setting::Text(s.to_string())
}

/// The text that some bytes stand for, with a replacement for what is not UTF-8.
pub uninterp spec fn lossy_text(bytes: Seq<u8>) -> Seq<char>;

/// Calls `String::from_utf8_lossy`. Bytes that are UTF-8 give the text they
/// encode; of others the result depends on the bytes alone.
#[verifier::external_body]
fn decode(bytes: &Vec<u8>) -> (r: String)
    ensures
        r@ == lossy_text(bytes@),
        vstd::utf8::valid_utf8(bytes@) ==> r@ == vstd::utf8::decode_utf8(bytes@),
{
    String::from_utf8_lossy(bytes).into_owned()
}

/// The value at a place of the settings, where there is one.
pub open spec fn value_at(s: ConnectionModel, section: Seq<char>, key: Seq<char>) -> Option<
    SettingModel,
> {
    if s.contains_key(section) && s[section].contains_key(key) {
        Some(s[section][key])
    } else {
        None
    }
}

/// The text at a place of the settings, where there is one.
pub open spec fn text_at(s: ConnectionModel, section: Seq<char>, key: Seq<char>) -> Option<Seq<char>> {
    match value_at(s, section, key) {
        Some(SettingModel::Text(t)) => Some(t),
        _ => None,
    }
}

/// The SSID in the settings, as text.
pub open spec fn ssid_at(s: ConnectionModel) -> Option<Seq<char>> {
    match value_at(s, "802-11-wireless"@, "ssid"@) {
        Some(v) => match bytes_in(v) {
            Some(b) => Some(lossy_text(b)),
            None => None,
        },
        None => None,
    }
}

fn get_value<'a>(s: &'a SettingsMap, section: &str, key: &str) -> (r: Option<&'a Setting>)
    ensures
        r is Some == value_at(s@, section@, key@) is Some,
        r matches Some(v) ==> Some(v@) == value_at(s@, section@, key@),
{
    match s.get(section) {
        Some(m) => m.get(key),
        None => None,
    }
}

fn get_text(s: &SettingsMap, section: &str, key: &str) -> (r: Option<String>)
    ensures
        text::opt_view(r) == text_at(s@, section@, key@),
{
    match get_value(s, section, key) {
        Some(Setting::Text(t)) => Some(t.clone()),
        _ => None,
    }
}

fn get_ssid(s: &SettingsMap) -> (r: Option<String>)
    ensures
        text::opt_view(r) == ssid_at(s@),
{
    match get_value(s, "802-11-wireless", "ssid") {
        Some(v) => match value_bytes(v) {
            Some(b) => Some(decode(&b)),
            None => None,
        },
        None => None,
    }
}

/// What tells connection profiles apart: their name, kind and SSID.
#[derive(Debug, PartialEq, Eq)]
pub struct ProfileInfo {
    pub id: Option<String>,
    pub kind: Option<String>,
    pub ssid: Option<String>,
}

#[verifier::ext_equal]
pub struct InfoModel {
    pub id: Option<Seq<char>>,
    pub kind: Option<Seq<char>>,
    pub ssid: Option<Seq<char>>,
}

impl View for ProfileInfo {
    type V = InfoModel;

    open spec fn view(&self) -> InfoModel {
        InfoModel {
            id: text::opt_view(self.id),
            kind: text::opt_view(self.kind),
            ssid: text::opt_view(self.ssid),
        }
    }
}

/// What tells a profile with these settings apart.
pub open spec fn info(s: ConnectionModel) -> InfoModel {
    InfoModel {
        id: text_at(s, "connection"@, "id"@),
        kind: text_at(s, "connection"@, "type"@),
        ssid: ssid_at(s),
    }
}

/// What tells a profile with these settings apart.
pub fn profile_info(s: &SettingsMap) -> (r: ProfileInfo)
    ensures
        r@ == info(s@),
{
    ProfileInfo {
        id: get_text(s, "connection", "id"),
        kind: get_text(s, "connection", "type"),
        ssid: get_ssid(s),
    }
}

/// The model of an optional profile.
pub open spec fn opt_info(o: Option<ProfileInfo>) -> Option<InfoModel> {
    match o {
        Some(p) => Some(p@),
        None => None,
    }
}

/// The models behind a list of profiles, some of which could not be read.
pub open spec fn infos(v: Seq<Option<ProfileInfo>>) -> Seq<Option<InfoModel>> {
    v.map_values(|o: Option<ProfileInfo>| opt_info(o))
}

/// The profile is for this SSID, by name or by its setting.
pub open spec fn is_for(p: InfoModel, ssid: Seq<char>) -> bool {
    p.id == Some(ssid) || p.ssid == Some(ssid)
}

/// The profile has the name of a numbered duplicate: the SSID, a space and a
/// number.
pub open spec fn is_numbered(p: InfoModel, ssid: Seq<char>) -> bool {
    match p.id {
        Some(id) => text::begins_with(id, ssid + " "@) && text::all_digits(
            id.skip(ssid.len() as int + 1),
        ),
        None => false,
    }
}

/// The first position from `i` on at which a readable profile is for `ssid`.
pub open spec fn first_for(list: Seq<Option<InfoModel>>, ssid: Seq<char>, i: int) -> Option<int>
    decreases list.len() - i,
{
    if i < 0 || i >= list.len() {
        None
    } else if list[i] matches Some(p) && is_for(p, ssid) {
        Some(i)
    } else {
        first_for(list, ssid, i + 1)
    }
}

/// The first position from `i` on at which a readable profile is a numbered
/// duplicate for `ssid`.
pub open spec fn first_numbered(list: Seq<Option<InfoModel>>, ssid: Seq<char>, i: int) -> Option<
    int,
>
    decreases list.len() - i,
{
    if i < 0 || i >= list.len() {
        None
    } else if list[i] matches Some(p) && is_numbered(p, ssid) {
        Some(i)
    } else {
        first_numbered(list, ssid, i + 1)
    }
}

/// The profile to use for an SSID: the first that is for it; failing that, the
/// first numbered duplicate.
pub open spec fn profile_for(list: Seq<Option<InfoModel>>, ssid: Seq<char>) -> Option<int> {
    match first_for(list, ssid, 0) {
        Some(i) => Some(i),
        None => first_numbered(list, ssid, 0),
    }
}

fn tell_for(p: &ProfileInfo, ssid: &str) -> (r: bool)
    ensures
        r == is_for(p@, ssid@),
{
    text::same_opt(&p.id, ssid) || text::same_opt(&p.ssid, ssid)
}

fn only_digits(s: &str) -> (r: bool)
    ensures
        r == text::all_digits(s@),
{
    let cs = text::chars_of(s);
    if cs.len() == 0 {
        return false;
    }
    let mut i: usize = 0;
    while i < cs.len()
        invariant
            i <= cs@.len(),
            cs@ == s@,
            forall|j: int| 0 <= j < i ==> text::digit(#[trigger] cs@[j]),
        decreases cs@.len() - i,
    {
        if !('0' <= cs[i] && cs[i] <= '9') {
            assert(!text::digit(cs@[i as int]));
            return false;
        }
        i += 1;
    }
    true
}

fn tell_numbered(p: &ProfileInfo, ssid: &str) -> (r: bool)
    ensures
        r == is_numbered(p@, ssid@),
{
    match &p.id {
        Some(id) => {
            let start = ssid.to_string().concat(" ");
            proof {
                reveal_strlit(" ");
            }
            match text::after_prefix(id.as_str(), start.as_str()) {
                Some(number) => only_digits(number.as_str()),
                None => false,
            }
        },
        None => false,
    }
}

/// A section of the settings; empty where there is none.
pub open spec fn section(s: ConnectionModel, name: Seq<char>) -> SectionModel {
    if s.contains_key(name) {
        s[name]
    } else {
        Map::empty()
    }
}

/// The settings with a value set.
pub open spec fn with_value(
    s: ConnectionModel,
    name: Seq<char>,
    key: Seq<char>,
    v: SettingModel,
) -> ConnectionModel {
    s.insert(name, section(s, name).insert(key, v))
}

fn put(s: &mut SettingsMap, name: &str, key: &str, v: Setting)
    ensures
        final(s)@ == with_value(old(s)@, name@, key@, v@),
{
    let m = s.get_or(name, Dict::new());
    m.insert(key, v);
}

/// The settings that name a new connection to `net` and its network.
pub open spec fn open_settings(net: NetworkModel, uuid: Seq<char>) -> ConnectionModel {
    let none = Map::<Seq<char>, SectionModel>::empty();
    let s = with_value(none, "connection"@, "id"@, SettingModel::Text(net.ssid));
    let s = with_value(s, "connection"@, "type"@, SettingModel::Text("802-11-wireless"@));
    let s = with_value(s, "connection"@, "uuid"@, SettingModel::Text(uuid));
    let ssid = vstd::utf8::encode_utf8(net.ssid);
    let s = with_value(s, "802-11-wireless"@, "ssid"@, bytes_value(ssid));
    let s = with_value(s, "802-11-wireless"@, "mode"@, SettingModel::Text("infrastructure"@));
    with_value(s, "802-11-wireless"@, "hidden"@, SettingModel::Bool(net.hidden))
}

/// The settings of a new connection to `net`.
pub open spec fn new_settings(net: NetworkModel, uuid: Seq<char>) -> ConnectionModel {
    let s = with_secrets(net, open_settings(net, uuid));
    let s = with_value(s, "ipv4"@, "method"@, SettingModel::Text("auto"@));
    with_value(s, "ipv6"@, "method"@, SettingModel::Text("auto"@))
}

/// The settings with what a connection needs to get in: 802.1x for an
/// enterprise network, a PSK where there is a password, and nothing for an open
/// network.
pub open spec fn with_secrets(net: NetworkModel, s: ConnectionModel) -> ConnectionModel {
    match (net.eap, net.password) {
        (Some(eap), password) => {
            let s = with_value(
                s,
                "802-11-wireless-security"@,
                "key-mgmt"@,
                SettingModel::Text("wpa-eap"@),
            );
            let s = with_value(s, "802-1x"@, "eap"@, one_text(eap));
            let s = match net.identity {
                Some(id) => with_value(s, "802-1x"@, "identity"@, SettingModel::Text(id)),
                None => s,
            };
            let s = match net.ca_cert {
                Some(ca) => with_value(
                    s,
                    "802-1x"@,
                    "ca-cert"@,
                    bytes_value(vstd::utf8::encode_utf8("file://"@ + ca)),
                ),
                None => s,
            };
            match password {
                Some(pw) => with_value(s, "802-1x"@, "password"@, SettingModel::Text(pw)),
                None => s,
            }
        },
        (None, Some(pw)) => {
            let s = with_value(
                s,
                "802-11-wireless-security"@,
                "key-mgmt"@,
                SettingModel::Text("wpa-psk"@),
            );
            with_value(s, "802-11-wireless-security"@, "psk"@, SettingModel::Text(pw))
        },
        (None, None) => s,
    }
}

fn put_secrets(net: &NetworkDef, s: &mut SettingsMap)
    ensures
        final(s)@ == with_secrets(net@, old(s)@),
{
    match &net.eap {
        Some(eap) => {
            put(s, "802-11-wireless-security", "key-mgmt", text_value("wpa-eap"));
            put(s, "802-1x", "eap", list_of_one(eap.as_str()));
            match &net.identity {
                Some(id) => put(s, "802-1x", "identity", text_value(id.as_str())),
                None => {},
            }
            match &net.ca_cert {
                Some(ca) => {
                    let uri = "file://".to_string().concat(ca.as_str());
                    put(s, "802-1x", "ca-cert", bytes_of(uri.as_str()));
                },
                None => {},
            }
            match &net.password {
                Some(pw) => put(s, "802-1x", "password", text_value(pw.as_str())),
                None => {},
            }
        },
        None => {
            match &net.password {
                Some(pw) => {
                    put(s, "802-11-wireless-security", "key-mgmt", text_value("wpa-psk"));
                    put(s, "802-11-wireless-security", "psk", text_value(pw.as_str()));
                },
                None => {},
            }
        },
    }
}

/// Build the settings for a new Wi-Fi connection.
pub fn wifi_settings(net: &NetworkDef, uuid: &str) -> (r: SettingsMap)
    ensures
        r@ == new_settings(net@, uuid@),
{
    let mut s: SettingsMap = Dict::new();
    put(&mut s, "connection", "id", text_value(net.ssid.as_str()));
    put(&mut s, "connection", "type", text_value("802-11-wireless"));
    put(&mut s, "connection", "uuid", text_value(uuid));
    put(&mut s, "802-11-wireless", "ssid", bytes_of(net.ssid.as_str()));
    put(&mut s, "802-11-wireless", "mode", text_value("infrastructure"));
    put(&mut s, "802-11-wireless", "hidden", Setting::Bool(net.hidden));
    put_secrets(net, &mut s);
    put(&mut s, "ipv4", "method", text_value("auto"));
    put(&mut s, "ipv6", "method", text_value("auto"));
    s
}

/// The settings of a saved profile, brought up to date for `net`: what is known
/// of how to get in, and the hidden flag. There is a section for security
/// afterwards, if an empty one.
pub open spec fn updated_settings(net: NetworkModel, s: ConnectionModel) -> ConnectionModel {
    let sec = "802-11-wireless-security"@;
    with_value(
        with_secrets(net, s.insert(sec, section(s, sec))),
        "802-11-wireless"@,
        "hidden"@,
        SettingModel::Bool(net.hidden),
    )
}

/// Update a saved profile's settings in place for `net`: PSK (or the 802.1x
/// properties for enterprise networks) and the hidden flag.
pub fn updated_settings_for(net: &NetworkDef, s: &mut SettingsMap)
    ensures
        final(s)@ == updated_settings(net@, old(s)@),
{
    {
        let _security = s.get_or("802-11-wireless-security", Dict::new());
    }
    put_secrets(net, s);
    put(s, "802-11-wireless", "hidden", Setting::Bool(net.hidden));
}

/// The settings with this DNS server and no other.
pub open spec fn with_dns(s: ConnectionModel, dns: Seq<char>) -> ConnectionModel {
    with_value(
        with_value(s, "ipv4"@, "ignore-auto-dns"@, SettingModel::Bool(true)),
        "ipv4"@,
        "dns"@,
        one_text(dns),
    )
}

/// Pin DNS in the settings of a connection.
pub fn pin_dns(s: &mut SettingsMap, dns: &str)
    ensures
        final(s)@ == with_dns(old(s)@, dns@),
{
    put(s, "ipv4", "ignore-auto-dns", Setting::Bool(true));
    put(s, "ipv4", "dns", list_of_one(dns));
}

broadcast proof fn lemma_with_value(
    s: ConnectionModel,
    name: Seq<char>,
    key: Seq<char>,
    v: SettingModel,
    n2: Seq<char>,
    k2: Seq<char>,
)
    ensures
        #[trigger] value_at(with_value(s, name, key, v), n2, k2) == (if n2 == name && k2 == key {
            Some(v)
        } else {
            value_at(s, n2, k2)
        }),
{
}

/// The places of the settings that an update for `net` may touch.
pub open spec fn secret_or_flag(name: Seq<char>, key: Seq<char>) -> bool {
    ||| name == "802-11-wireless-security"@ && (key == "key-mgmt"@ || key == "psk"@)
    ||| name == "802-1x"@ && (key == "eap"@ || key == "identity"@ || key == "ca-cert"@ || key
        == "password"@)
    ||| name == "802-11-wireless"@ && key == "hidden"@
}

proof fn lemma_with_secrets(
    net: NetworkModel,
    s: ConnectionModel,
    name: Seq<char>,
    key: Seq<char>,
)
    ensures
        value_at(with_secrets(net, s), name, key) == (match value_at(
            with_secrets(net, Map::empty()),
            name,
            key,
        ) {
            Some(v) => Some(v),
            None => value_at(s, name, key),
        }),
{
    broadcast use lemma_with_value;

}

/// An update of a saved profile leaves all its settings as they are but for the
/// way to get in and the hidden flag. For an open network it changes only the
/// flag. Without a password to send, a saved secret stays.
pub proof fn an_update_touches_little(
    net: NetworkModel,
    s: ConnectionModel,
    name: Seq<char>,
    key: Seq<char>,
)
    ensures
        !secret_or_flag(name, key) ==> value_at(updated_settings(net, s), name, key) == value_at(
            s,
            name,
            key,
        ),
        net.eap is None && net.password is None && !(name == "802-11-wireless"@ && key
            == "hidden"@) ==> value_at(updated_settings(net, s), name, key) == value_at(
            s,
            name,
            key,
        ),
        net.password is None && (key == "psk"@ || key == "password"@) ==> value_at(
            updated_settings(net, s),
            name,
            key,
        ) == value_at(s, name, key),
{
    broadcast use lemma_with_value;

    lemma_keys_differ();
    let sec = "802-11-wireless-security"@;
    let made = s.insert(sec, section(s, sec));
    assert(value_at(made, name, key) == value_at(s, name, key));
}

/// What a new connection to a network would hold of the way to get in, and its
/// hidden flag, an updated profile holds too.
pub proof fn an_update_lets_in_as_a_new_connection_does(
    net: NetworkModel,
    uuid: Seq<char>,
    s: ConnectionModel,
    name: Seq<char>,
    key: Seq<char>,
)
    requires
        secret_or_flag(name, key),
        value_at(new_settings(net, uuid), name, key) is Some,
    ensures
        value_at(updated_settings(net, s), name, key) == value_at(
            new_settings(net, uuid),
            name,
            key,
        ),
{
    broadcast use lemma_with_value;

    lemma_names_differ();
    lemma_keys_differ();
    let bare = open_settings(net, uuid);
    let sec = "802-11-wireless-security"@;
    lemma_with_secrets(net, s.insert(sec, section(s, sec)), name, key);
    lemma_with_secrets(net, bare, name, key);
    assert(value_at(new_settings(net, uuid), name, key) == value_at(
        with_secrets(net, bare),
        name,
        key,
    ));
    if name == "802-11-wireless"@ {
        assert(value_at(bare, name, key) == Some(SettingModel::Bool(net.hidden)));
    } else {
        assert(value_at(bare, name, key) is None);
    }
}

proof fn lemma_keys_differ()
    ensures
        "psk"@ != "key-mgmt"@,
        "psk"@ != "eap"@,
        "psk"@ != "identity"@,
        "psk"@ != "ca-cert"@,
        "psk"@ != "hidden"@,
        "password"@ != "key-mgmt"@,
        "password"@ != "eap"@,
        "password"@ != "identity"@,
        "password"@ != "ca-cert"@,
        "password"@ != "hidden"@,
        "hidden"@ != "ssid"@,
        "hidden"@ != "mode"@,
{
    reveal_strlit("psk");
    reveal_strlit("key-mgmt");
    reveal_strlit("eap");
    reveal_strlit("identity");
    reveal_strlit("ca-cert");
    reveal_strlit("hidden");
    reveal_strlit("password");
    reveal_strlit("ssid");
    reveal_strlit("mode");
    assert("psk"@[0] == 'p' && "eap"@[0] == 'e');
    assert("password"@[0] == 'p' && "key-mgmt"@[0] == 'k' && "identity"@[0] == 'i');
    assert("ca-cert"@.len() == 7 && "hidden"@.len() == 6 && "password"@.len() == 8);
    assert("ssid"@.len() == 4 && "mode"@.len() == 4);
}

proof fn lemma_names_differ()
    ensures
        "connection"@ != "802-11-wireless"@,
        "connection"@ != "802-11-wireless-security"@,
        "connection"@ != "802-1x"@,
        "connection"@ != "ipv4"@,
        "connection"@ != "ipv6"@,
        "802-11-wireless-security"@ != "802-11-wireless"@,
        "802-11-wireless-security"@ != "802-1x"@,
        "802-11-wireless-security"@ != "ipv4"@,
        "802-11-wireless-security"@ != "ipv6"@,
        "802-11-wireless"@ != "802-1x"@,
        "802-11-wireless"@ != "ipv4"@,
        "802-11-wireless"@ != "ipv6"@,
        "802-1x"@ != "ipv4"@,
        "802-1x"@ != "ipv6"@,
        "id"@ != "type"@,
        "id"@ != "uuid"@,
        "type"@ != "uuid"@,
{
    reveal_strlit("connection");
    reveal_strlit("802-11-wireless");
    reveal_strlit("802-11-wireless-security");
    reveal_strlit("802-1x");
    reveal_strlit("ipv4");
    reveal_strlit("ipv6");
    reveal_strlit("id");
    reveal_strlit("type");
    reveal_strlit("uuid");
    assert("connection"@.len() == 10);
    assert("802-11-wireless"@.len() == 15);
    assert("802-11-wireless-security"@.len() == 24);
    assert("802-1x"@.len() == 6);
    assert("ipv4"@.len() == 4);
    assert("ipv6"@.len() == 4);
    assert("id"@.len() == 2);
    assert("type"@.len() == 4);
    assert("uuid"@.len() == 4);
    assert("type"@[0] == 't' && "uuid"@[0] == 'u');
}

/// Where the settings of a connection to this network hold its password.
pub open spec fn secret_place(net: NetworkModel) -> (Seq<char>, Seq<char>) {
    if net.eap is Some {
        ("802-1x"@, "password"@)
    } else {
        ("802-11-wireless-security"@, "psk"@)
    }
}

/// A new connection bears the SSID as its name and is of the wireless kind. It
/// has a section for secrets exactly where the network is not open, and carries
/// the password where there is one.
pub proof fn a_new_connection_carries_ssid_and_secret(net: NetworkModel, uuid: Seq<char>)
    ensures
        info(new_settings(net, uuid)).id == Some(net.ssid),
        info(new_settings(net, uuid)).kind == Some("802-11-wireless"@),
        is_for(info(new_settings(net, uuid)), net.ssid),
        new_settings(net, uuid).contains_key("802-11-wireless-security"@) <==> net.eap is Some
            || net.password is Some,
        net.password matches Some(pw) ==> value_at(
            new_settings(net, uuid),
            secret_place(net).0,
            secret_place(net).1,
        ) == Some(SettingModel::Text(pw)),
{
    lemma_names_differ();
}

proof fn lemma_first_found(list: Seq<Option<InfoModel>>, ssid: Seq<char>, i: int)
    requires
        0 <= i,
    ensures
        first_for(list, ssid, i) matches Some(k) ==> i <= k < list.len() && (list[k] matches Some(p)
            && is_for(p, ssid)),
        first_numbered(list, ssid, i) matches Some(k) ==> i <= k < list.len() && (
        list[k] matches Some(p) && is_numbered(p, ssid)),
    decreases list.len() - i,
{
    if i < list.len() {
        lemma_first_found(list, ssid, i + 1);
    }
}

/// What is found for an SSID is a saved profile of that name, of that name with a
/// space and a number behind it, or for that SSID. No other profile is touched
/// for it.
pub proof fn no_other_profile_is_found(list: Seq<Option<InfoModel>>, ssid: Seq<char>)
    ensures
        profile_for(list, ssid) matches Some(i) ==> 0 <= i < list.len() && (list[i] matches Some(p)
            && (is_for(p, ssid) || is_numbered(p, ssid))),
{
    lemma_first_found(list, ssid, 0);
}

/// A profile for an SSID is found wherever it stands among the saved ones, and
/// what is found then is for that SSID.
pub proof fn the_profile_for_an_ssid_is_found(
    list: Seq<Option<InfoModel>>,
    ssid: Seq<char>,
    at: int,
)
    requires
        0 <= at < list.len(),
        list[at] matches Some(p) && is_for(p, ssid),
    ensures
        profile_for(list, ssid) matches Some(i) && 0 <= i <= at && (list[i] matches Some(q)
            && is_for(q, ssid)),
{
    lemma_first_for(list, ssid, 0, at);
}

proof fn lemma_first_for(list: Seq<Option<InfoModel>>, ssid: Seq<char>, i: int, at: int)
    requires
        0 <= i <= at < list.len(),
        list[at] matches Some(p) && is_for(p, ssid),
    ensures
        first_for(list, ssid, i) matches Some(k) && i <= k <= at && (list[k] matches Some(q)
            && is_for(q, ssid)),
    decreases at - i,
{
    let here = list[i] matches Some(q) && is_for(q, ssid);
    if !here {
        lemma_first_for(list, ssid, i + 1, at);
    }
}

// ---- Saved profiles ------------------------------------------------------

/// The name and SSID under which a wireless profile is listed; `None` for one of
/// another kind. Without an SSID of its own the name stands for it.
pub open spec fn listing(p: InfoModel) -> Option<(Seq<char>, Seq<char>)> {
    if p.kind != Some("802-11-wireless"@) {
        None
    } else {
        let name = match p.id {
            Some(id) => id,
            None => Seq::empty(),
        };
        match p.ssid {
            Some(ssid) => if ssid.len() > 0 {
                Some((name, ssid))
            } else {
                Some((name, name))
            },
            None => Some((name, name)),
        }
    }
}

/// The listings of the readable wireless profiles, in order.
pub open spec fn listings(list: Seq<Option<InfoModel>>) -> Seq<(Seq<char>, Seq<char>)>
    decreases list.len(),
{
    if list.len() == 0 {
        Seq::empty()
    } else {
        let before = listings(list.drop_last());
        match list.last() {
            Some(p) => match listing(p) {
                Some(e) => before.push(e),
                None => before,
            },
            None => before,
        }
    }
}

/// The models behind a list of pairs.
pub open spec fn pairs(v: Seq<(String, String)>) -> Seq<(Seq<char>, Seq<char>)> {
    v.map_values(|e: (String, String)| (e.0@, e.1@))
}

fn text_or_empty(o: &Option<String>) -> (r: String)
    ensures
        r@ == (match text::opt_view(*o) {
            Some(s) => s,
            None => Seq::empty(),
        }),
{
    match o {
        Some(s) => s.clone(),
        None => String::new(),
    }
}

/// List all wireless connection profiles as `(name, ssid)` pairs, using the
/// profile's SSID setting when present (falling back to the profile name).
pub fn wireless_profiles(list: &Vec<Option<ProfileInfo>>) -> (r: Vec<(String, String)>)
    ensures
        pairs(r@) == listings(infos(list@)),
{
    let ghost all = infos(list@);
    let mut out: Vec<(String, String)> = Vec::new();
    let mut i: usize = 0;
    assert(pairs(out@) =~= listings(all.take(0)));
    while i < list.len()
        invariant
            i <= list@.len(),
            all == infos(list@),
            pairs(out@) == listings(all.take(i as int)),
        decreases list@.len() - i,
    {
        assert(all.take(i + 1).drop_last() =~= all.take(i as int));
        assert(all.take(i + 1).last() == opt_info(list@[i as int]));
        match &list[i] {
            Some(p) => {
                if text::same_opt(&p.kind, "802-11-wireless") {
                    let name = text_or_empty(&p.id);
                    let ssid = text_or_empty(&p.ssid);
                    let e = if ssid.unicode_len() != 0 {
                        (name, ssid)
                    } else {
                        let copy = name.clone();
                        (name, copy)
                    };
                    assert(pairs(out@.push(e)) =~= pairs(out@).push((e.0@, e.1@)));
                    assert(listing(p@) == Some((e.0@, e.1@)));
                    out.push(e);
                }
            },
            None => {},
        }
        i += 1;
    }
    assert(all.take(i as int) =~= all);
    out
}

/// Whether `forget` removes a profile: its name or its SSID is `ssid`. One
/// without a name or SSID counts as having an empty one.
pub open spec fn goes_with(p: InfoModel, ssid: Seq<char>) -> bool {
    ||| ssid == (match p.id {
        Some(id) => id,
        None => Seq::empty(),
    })
    ||| ssid == (match p.ssid {
        Some(s) => s,
        None => Seq::empty(),
    })
}

/// The positions of the readable profiles that go with `ssid`, in order.
pub open spec fn doomed(list: Seq<Option<InfoModel>>, ssid: Seq<char>) -> Seq<int>
    decreases list.len(),
{
    if list.len() == 0 {
        Seq::empty()
    } else {
        let before = doomed(list.drop_last(), ssid);
        if list.last() matches Some(p) && goes_with(p, ssid) {
            before.push(list.len() - 1)
        } else {
            before
        }
    }
}

/// The models behind a list of positions.
pub open spec fn positions(v: Seq<usize>) -> Seq<int> {
    v.map_values(|i: usize| i as int)
}

/// The positions of the saved connection profiles to delete for an SSID: those
/// whose name or SSID matches it.
pub fn delete_connections_for_ssid(list: &Vec<Option<ProfileInfo>>, ssid: &str) -> (r: Vec<usize>)
    ensures
        positions(r@) == doomed(infos(list@), ssid@),
{
    let ghost all = infos(list@);
    let mut out: Vec<usize> = Vec::new();
    let mut i: usize = 0;
    assert(positions(out@) =~= doomed(all.take(0), ssid@));
    while i < list.len()
        invariant
            i <= list@.len(),
            all == infos(list@),
            positions(out@) == doomed(all.take(i as int), ssid@),
        decreases list@.len() - i,
    {
        assert(all.take(i + 1).drop_last() =~= all.take(i as int));
        assert(all.take(i + 1).last() == opt_info(list@[i as int]));
        match &list[i] {
            Some(p) => {
                if text::same(text_or_empty(&p.id).as_str(), ssid) || text::same(
                    text_or_empty(&p.ssid).as_str(),
                    ssid,
                ) {
                    assert(positions(out@.push(i)) =~= positions(out@).push(i as int));
                    out.push(i);
                }
            },
            None => {},
        }
        i += 1;
    }
    assert(all.take(i as int) =~= all);
    out
}

// ---- Access points -------------------------------------------------------

/// An access point as NetworkManager reports it.
#[derive(Debug)]
pub struct RawAccessPoint {
    pub ssid: Vec<u8>,
    pub strength: u8,
    pub flags: u32,
    pub wpa: u32,
    pub rsn: u32,
}

/// An access point, its SSID as text.
#[derive(Debug, PartialEq, Eq)]
pub struct AccessPoint {
    pub ssid: String,
    pub strength: u8,
    pub flags: u32,
    pub wpa: u32,
    pub rsn: u32,
}

#[verifier::ext_equal]
pub struct ApModel {
    pub ssid: Seq<char>,
    pub strength: u8,
    pub flags: u32,
    pub wpa: u32,
    pub rsn: u32,
}

impl View for AccessPoint {
    type V = ApModel;

    open spec fn view(&self) -> ApModel {
        ApModel {
            ssid: self.ssid@,
            strength: self.strength,
            flags: self.flags,
            wpa: self.wpa,
            rsn: self.rsn,
        }
    }
}

/// The models behind a list of access points.
pub open spec fn ap_models(v: Seq<AccessPoint>) -> Seq<ApModel> {
    v.map_values(|a: AccessPoint| a@)
}

/// An access point, its SSID as text.
pub open spec fn ap(raw: RawAccessPoint) -> ApModel {
    ApModel {
        ssid: lossy_text(raw.ssid@),
        strength: raw.strength,
        flags: raw.flags,
        wpa: raw.wpa,
        rsn: raw.rsn,
    }
}

/// Access points with their SSIDs as text, decoded lossily.
pub fn access_points(raw: &Vec<RawAccessPoint>) -> (r: Vec<AccessPoint>)
    ensures
        ap_models(r@) == raw@.map_values(|a: RawAccessPoint| ap(a)),
{
    let ghost all = raw@.map_values(|a: RawAccessPoint| ap(a));
    let mut out: Vec<AccessPoint> = Vec::new();
    let mut i: usize = 0;
    assert(ap_models(out@) =~= all.take(0));
    while i < raw.len()
        invariant
            i <= raw@.len(),
            all == raw@.map_values(|a: RawAccessPoint| ap(a)),
            ap_models(out@) == all.take(i as int),
        decreases raw@.len() - i,
    {
        let a = AccessPoint {
            ssid: decode(&raw[i].ssid),
            strength: raw[i].strength,
            flags: raw[i].flags,
            wpa: raw[i].wpa,
            rsn: raw[i].rsn,
        };
        assert(ap_models(out@.push(a)) =~= ap_models(out@).push(a@));
        assert(all.take(i + 1) =~= all.take(i as int).push(all[i as int]));
        out.push(a);
        i += 1;
    }
    assert(all.take(i as int) =~= all);
    out
}

/// The SSIDs that are broadcast, each once, in order of appearance.
pub open spec fn broadcast_ssids(aps: Seq<ApModel>) -> Seq<Seq<char>>
    decreases aps.len(),
{
    if aps.len() == 0 {
        Seq::empty()
    } else {
        let before = broadcast_ssids(aps.drop_last());
        let ssid = aps.last().ssid;
        if ssid.len() == 0 || before.contains(ssid) {
            before
        } else {
            before.push(ssid)
        }
    }
}

/// The visible SSIDs, each once.
pub fn visible_ssids(aps: &Vec<AccessPoint>) -> (r: Vec<String>)
    ensures
        text::views(r@) == broadcast_ssids(ap_models(aps@)),
{
    let ghost all = ap_models(aps@);
    let mut out: Vec<String> = Vec::new();
    let mut i: usize = 0;
    assert(text::views(out@) =~= broadcast_ssids(all.take(0)));
    while i < aps.len()
        invariant
            i <= aps@.len(),
            all == ap_models(aps@),
            text::views(out@) == broadcast_ssids(all.take(i as int)),
        decreases aps@.len() - i,
    {
        assert(all.take(i + 1).drop_last() =~= all.take(i as int));
        assert(all.take(i + 1).last() == aps@[i as int]@);
        let ssid = aps[i].ssid.as_str();
        if !ssid.is_empty() && !text::list_has(&out, ssid) {
            out.push(aps[i].ssid.clone());
        }
        i += 1;
    }
    assert(all.take(i as int) =~= all);
    out
}

/// The SSIDs behind a list of signals.
pub open spec fn signal_names(signals: Seq<(Seq<char>, i32)>) -> Seq<Seq<char>> {
    signals.map_values(|e: (Seq<char>, i32)| e.0)
}

/// A signal noted among others: where its SSID is there, the stronger one stays.
pub open spec fn noted(signals: Seq<(Seq<char>, i32)>, ssid: Seq<char>, signal: i32) -> Seq<
    (Seq<char>, i32),
> {
    let i = text::first_index(signal_names(signals), ssid) as int;
    if i >= signals.len() {
        signals.push((ssid, signal))
    } else if signal > signals[i].1 {
        signals.update(i, (signals[i].0, signal))
    } else {
        signals
    }
}

/// The SSIDs that are broadcast, each once and with its strongest signal.
pub open spec fn broadcast_signals(aps: Seq<ApModel>) -> Seq<(Seq<char>, i32)>
    decreases aps.len(),
{
    if aps.len() == 0 {
        Seq::empty()
    } else {
        let before = broadcast_signals(aps.drop_last());
        if aps.last().ssid.len() == 0 {
            before
        } else {
            noted(before, aps.last().ssid, aps.last().strength as i32)
        }
    }
}

fn note_signal(out: &mut Vec<(String, i32)>, ssid: &str, signal: i32)
    ensures
        backend::signal_models(final(out)@) == noted(
            backend::signal_models(old(out)@),
            ssid@,
            signal,
        ),
{
    let ghost all = backend::signal_models(out@);
    let ghost ids = signal_names(all);
    let mut i: usize = 0;
    while i < out.len() && !text::same(out[i].0.as_str(), ssid)
        invariant
            i <= out@.len(),
            all == backend::signal_models(out@),
            ids == signal_names(all),
            forall|j: int| 0 <= j < i ==> #[trigger] ids[j] != ssid@,
        decreases out@.len() - i,
    {
        assert(ids[i as int] == out@[i as int].0@);
        i += 1;
    }
    proof {
        assert(i < out@.len() ==> ids[i as int] == out@[i as int].0@);
        text::lemma_first_index_is(ids, ssid@, i as int);
    }
    if i == out.len() {
        let e = (ssid.to_string(), signal);
        assert(backend::signal_models(out@.push(e)) =~= all.push((ssid@, signal)));
        out.push(e);
    } else if signal > out[i].1 {
        let e = (out[i].0.clone(), signal);
        assert(backend::signal_models(out@.update(i as int, e)) =~= all.update(
            i as int,
            (all[i as int].0, signal),
        ));
        out.set(i, e);
    }
}

/// Visible SSIDs with their signal strength (0–100), one entry per SSID
/// (strongest access point wins).
pub fn visible_signals(aps: &Vec<AccessPoint>) -> (r: Vec<(String, i32)>)
    ensures
        backend::signal_models(r@) == broadcast_signals(ap_models(aps@)),
{
    let ghost all = ap_models(aps@);
    let mut out: Vec<(String, i32)> = Vec::new();
    let mut i: usize = 0;
    assert(backend::signal_models(out@) =~= broadcast_signals(all.take(0)));
    while i < aps.len()
        invariant
            i <= aps@.len(),
            all == ap_models(aps@),
            backend::signal_models(out@) == broadcast_signals(all.take(i as int)),
        decreases aps@.len() - i,
    {
        assert(all.take(i + 1).drop_last() =~= all.take(i as int));
        assert(all.take(i + 1).last() == aps@[i as int]@);
        if !aps[i].ssid.as_str().is_empty() {
            note_signal(&mut out, aps[i].ssid.as_str(), aps[i].strength as i32);
        }
        i += 1;
    }
    assert(all.take(i as int) =~= all);
    out
}

/// The strongest signal under which an SSID is broadcast.
pub open spec fn strongest(aps: Seq<ApModel>, ssid: Seq<char>) -> Option<i32>
    decreases aps.len(),
{
    if aps.len() == 0 {
        None
    } else {
        let before = strongest(aps.drop_last(), ssid);
        let last = aps.last();
        if last.ssid != ssid {
            before
        } else {
            match before {
                Some(s) => if last.strength as i32 > s {
                    Some(last.strength as i32)
                } else {
                    before
                },
                None => Some(last.strength as i32),
            }
        }
    }
}

proof fn lemma_signal_of(signals: Seq<(Seq<char>, i32)>, ssid: Seq<char>)
    ensures
        flow::signal_of(signals, ssid) == ({
            let i = text::first_index(signal_names(signals), ssid) as int;
            if i < signals.len() {
                Some(signals[i].1)
            } else {
                None
            }
        }),
    decreases signals.len(),
{
    let ids = signal_names(signals);
    text::lemma_first_index(ids, ssid);
    if signals.len() > 0 {
        let rest = signals.drop_first();
        lemma_signal_of(rest, ssid);
        assert(signal_names(rest) =~= ids.drop_first());
        if signals[0].0 == ssid {
            text::lemma_first_index_is(ids, ssid, 0);
        } else {
            let k = text::first_index(signal_names(rest), ssid) as int;
            text::lemma_first_index(signal_names(rest), ssid);
            assert forall|j: int| 0 <= j < k + 1 implies ids[j] != ssid by {
                if j > 0 {
                    assert(ids[j] == signal_names(rest)[j - 1]);
                }
            }
            if k < rest.len() {
                assert(ids[k + 1] == signal_names(rest)[k]);
            }
            text::lemma_first_index_is(ids, ssid, k + 1);
        }
    }
}

proof fn lemma_noted(signals: Seq<(Seq<char>, i32)>, ssid: Seq<char>, signal: i32, other: Seq<char>)
    ensures
        flow::signal_of(noted(signals, ssid, signal), other) == (if other != ssid {
            flow::signal_of(signals, other)
        } else {
            match flow::signal_of(signals, ssid) {
                Some(s) => if signal > s {
                    Some(signal)
                } else {
                    Some(s)
                },
                None => Some(signal),
            }
        }),
        signal_names(signals).no_duplicates() ==> signal_names(
            noted(signals, ssid, signal),
        ).no_duplicates(),
{
    let ids = signal_names(signals);
    let out = noted(signals, ssid, signal);
    let ids2 = signal_names(out);
    text::lemma_first_index(ids, ssid);
    text::lemma_first_index(ids, other);
    text::lemma_first_index(ids2, other);
    lemma_signal_of(signals, ssid);
    lemma_signal_of(signals, other);
    lemma_signal_of(out, other);
    let i = text::first_index(ids, ssid) as int;
    if i >= signals.len() {
        assert(ids2 =~= ids.push(ssid));
        let k = text::first_index(ids, other) as int;
        assert forall|j: int| 0 <= j < k implies ids2[j] != other by {
            assert(ids[j] != other);
        }
        if k < ids.len() {
            assert(ids2[k] == ids[k]);
            text::lemma_first_index_is(ids2, other, k);
        } else if other == ssid {
            text::lemma_first_index_is(ids2, other, ids.len() as int);
        } else {
            text::lemma_first_index_is(ids2, other, ids2.len() as int);
        }
        if ids.no_duplicates() {
            assert forall|a: int, b: int|
                0 <= a < ids2.len() && 0 <= b < ids2.len() && a != b implies ids2[a] != ids2[b] by {
                if a < ids.len() {
                    assert(ids.contains(ids[a]));
                }
                if b < ids.len() {
                    assert(ids.contains(ids[b]));
                }
            }
        }
    } else {
        assert(ids2 =~= ids);
    }
}

/// Each broadcast SSID is listed once, with the strongest of its signals; no
/// other is listed.
pub proof fn the_strongest_signal_is_listed(aps: Seq<ApModel>, ssid: Seq<char>)
    ensures
        flow::signal_of(broadcast_signals(aps), ssid) == (if ssid.len() == 0 {
            None
        } else {
            strongest(aps, ssid)
        }),
        signal_names(broadcast_signals(aps)).no_duplicates(),
    decreases aps.len(),
{
    if aps.len() > 0 {
        the_strongest_signal_is_listed(aps.drop_last(), ssid);
        lemma_noted(
            broadcast_signals(aps.drop_last()),
            aps.last().ssid,
            aps.last().strength as i32,
            ssid,
        );
    }
}

/// The access point is private.
pub const AP_FLAG_PRIVACY: u32 = 0x1;

/// Key management with a pre-shared key.
pub const SEC_PSK: u32 = 0x100;

/// Key management with 802.1x.
pub const SEC_802_1X: u32 = 0x200;

/// Key management with SAE.
pub const SEC_SAE: u32 = 0x400;

/// A flag is set.
pub open spec fn flag_set(flags: u32, flag: u32) -> bool {
    flags & flag != 0
}

/// How a network is secured, in a word or two.
pub open spec fn security(flags: u32, wpa: u32, rsn: u32) -> Seq<char> {
    if !flag_set(flags, AP_FLAG_PRIVACY) && wpa == 0 && rsn == 0 {
        "--"@
    } else if flag_set(rsn, SEC_SAE) {
        "WPA3"@
    } else if flag_set(wpa, SEC_PSK) && flag_set(rsn, SEC_PSK) {
        "WPA1 WPA2"@
    } else if flag_set(wpa, SEC_PSK) {
        "WPA1"@
    } else if flag_set(rsn, SEC_PSK) {
        "WPA2"@
    } else if flag_set(wpa, SEC_802_1X) || flag_set(rsn, SEC_802_1X) {
        "802.1X"@
    } else {
        "WEP"@
    }
}

/// How a network is secured, from its 802.11 flag sets: `--` for open,
/// `WPA1 WPA2` / `WPA2` / `WPA3` / `802.1X` / `WEP` for secured networks.
pub fn security_string(flags: u32, wpa: u32, rsn: u32) -> (r: String)
    ensures
        r@ == security(flags, wpa, rsn),
{
    if flags & AP_FLAG_PRIVACY == 0 && wpa == 0 && rsn == 0 {
        return "--".to_string();
    }
    if rsn & SEC_SAE != 0 {
        return "WPA3".to_string();
    }
    let one = wpa & SEC_PSK != 0;
    let two = rsn & SEC_PSK != 0;
    if one && two {
        "WPA1 WPA2".to_string()
    } else if one {
        "WPA1".to_string()
    } else if two {
        "WPA2".to_string()
    } else if wpa & SEC_802_1X != 0 || rsn & SEC_802_1X != 0 {
        "802.1X".to_string()
    } else {
        "WEP".to_string()
    }
}

/// The number in a signal such as "72" or "72 %".
pub open spec fn rank(s: Seq<char>) -> int {
    match text::signed(
        text::trimmed(text::without_suffix_char(text::trimmed(s), '%')),
    ) {
        Some(n) => n,
        None => -100,
    }
}

/// Numeric rank of a signal string ("72" or "72 %"), for the strongest-wins
/// dedup.
pub fn signal_rank(s: &str) -> (r: i32)
    ensures
        r == rank(s@),
{
    let t = text::trim(s);
    let u = text::trim_end_char(t.as_str(), '%');
    let v = text::trim(u.as_str());
    match text::parse_i32(v.as_str()) {
        Some(n) => n,
        None => -100,
    }
}

/// A network found in a scan.
#[derive(Debug, PartialEq, Eq)]
pub struct ScanEntry {
    pub ssid: String,
    pub signal: String,
    pub security: String,
}

#[verifier::ext_equal]
pub struct ScanModel {
    pub ssid: Seq<char>,
    pub signal: Seq<char>,
    pub security: Seq<char>,
}

impl View for ScanEntry {
    type V = ScanModel;

    open spec fn view(&self) -> ScanModel {
        ScanModel { ssid: self.ssid@, signal: self.signal@, security: self.security@ }
    }
}

/// The models behind a scan.
pub open spec fn scan_models(v: Seq<ScanEntry>) -> Seq<ScanModel> {
    v.map_values(|e: ScanEntry| e@)
}

/// The SSIDs in a scan.
pub open spec fn scan_names(v: Seq<ScanModel>) -> Seq<Seq<char>> {
    v.map_values(|e: ScanModel| e.ssid)
}

/// What a scan shows of an access point.
pub open spec fn scan_entry(a: ApModel) -> ScanModel {
    ScanModel {
        ssid: a.ssid,
        signal: text::decimal(a.strength as nat),
        security: security(a.flags, a.wpa, a.rsn),
    }
}

/// An entry added to a scan: where its SSID is there, the stronger one stays.
pub open spec fn scan_with(list: Seq<ScanModel>, e: ScanModel) -> Seq<ScanModel> {
    let i = text::first_index(scan_names(list), e.ssid) as int;
    if i >= list.len() {
        list.push(e)
    } else if rank(e.signal) > rank(list[i].signal) {
        list.update(i, e)
    } else {
        list
    }
}

/// The networks that are broadcast, each once and at its strongest.
pub open spec fn scanned(aps: Seq<ApModel>) -> Seq<ScanModel>
    decreases aps.len(),
{
    if aps.len() == 0 {
        Seq::empty()
    } else {
        let before = scanned(aps.drop_last());
        if aps.last().ssid.len() == 0 {
            before
        } else {
            scan_with(before, scan_entry(aps.last()))
        }
    }
}

fn add_scan(out: &mut Vec<ScanEntry>, e: ScanEntry)
    ensures
        scan_models(final(out)@) == scan_with(scan_models(old(out)@), e@),
{
    let ghost all = scan_models(out@);
    let ghost ids = scan_names(all);
    let mut i: usize = 0;
    while i < out.len() && !text::same(out[i].ssid.as_str(), e.ssid.as_str())
        invariant
            i <= out@.len(),
            all == scan_models(out@),
            ids == scan_names(all),
            forall|j: int| 0 <= j < i ==> #[trigger] ids[j] != e.ssid@,
        decreases out@.len() - i,
    {
        assert(ids[i as int] == out@[i as int].ssid@);
        i += 1;
    }
    proof {
        assert(i < out@.len() ==> ids[i as int] == out@[i as int].ssid@);
        text::lemma_first_index_is(ids, e.ssid@, i as int);
    }
    if i == out.len() {
        assert(scan_models(out@.push(e)) =~= all.push(e@));
        out.push(e);
    } else if signal_rank(e.signal.as_str()) > signal_rank(out[i].signal.as_str()) {
        assert(scan_models(out@.update(i as int, e)) =~= all.update(i as int, e@));
        out.set(i, e);
    }
}

/// One entry per SSID, at its strongest signal. Hidden networks have no SSID in
/// a scan and are passed over.
pub fn scan_list(aps: &Vec<AccessPoint>) -> (r: Vec<ScanEntry>)
    ensures
        scan_models(r@) == scanned(ap_models(aps@)),
{
    let ghost all = ap_models(aps@);
    let mut out: Vec<ScanEntry> = Vec::new();
    let mut i: usize = 0;
    assert(scan_models(out@) =~= scanned(all.take(0)));
    while i < aps.len()
        invariant
            i <= aps@.len(),
            all == ap_models(aps@),
            scan_models(out@) == scanned(all.take(i as int)),
        decreases aps@.len() - i,
    {
        assert(all.take(i + 1).drop_last() =~= all.take(i as int));
        assert(all.take(i + 1).last() == aps@[i as int]@);
        let a = &aps[i];
        if !a.ssid.as_str().is_empty() {
            add_scan(
                &mut out,
                ScanEntry {
                    ssid: a.ssid.clone(),
                    signal: text::to_decimal(a.strength as u64),
                    security: security_string(a.flags, a.wpa, a.rsn),
                },
            );
        }
        i += 1;
    }
    assert(all.take(i as int) =~= all);
    out
}

/// The rank of a signal written in decimal is the signal.
proof fn lemma_rank_of_decimal(n: nat)
    requires
        n <= 0x7fff_ffff,
    ensures
        rank(text::decimal(n)) == n,
{
    let s = text::decimal(n);
    text::decimal_reads_back(n);
    assert(text::digit(s[0]));
    assert(text::digit(s[s.len() - 1]));
    assert(!text::space(s[0]) && !text::space(s.last()) && s.last() != '%');
    assert(text::trimmed(s) == s);
}

/// The strength that a scan shows for an SSID, where it shows one.
pub open spec fn shown_rank(list: Seq<ScanModel>, ssid: Seq<char>) -> Option<int> {
    let i = text::first_index(scan_names(list), ssid) as int;
    if i < list.len() {
        Some(rank(list[i].signal))
    } else {
        None
    }
}

proof fn lemma_scan_with(list: Seq<ScanModel>, e: ScanModel, other: Seq<char>)
    ensures
        shown_rank(scan_with(list, e), other) == (if other != e.ssid {
            shown_rank(list, other)
        } else {
            match shown_rank(list, e.ssid) {
                Some(s) => if rank(e.signal) > s {
                    Some(rank(e.signal))
                } else {
                    Some(s)
                },
                None => Some(rank(e.signal)),
            }
        }),
        scan_names(list).no_duplicates() ==> scan_names(scan_with(list, e)).no_duplicates(),
{
    let ids = scan_names(list);
    let out = scan_with(list, e);
    let ids2 = scan_names(out);
    text::lemma_first_index(ids, e.ssid);
    text::lemma_first_index(ids, other);
    text::lemma_first_index(ids2, other);
    let i = text::first_index(ids, e.ssid) as int;
    if i >= list.len() {
        assert(ids2 =~= ids.push(e.ssid));
        let k = text::first_index(ids, other) as int;
        assert forall|j: int| 0 <= j < k implies ids2[j] != other by {
            assert(ids[j] != other);
        }
        if k < ids.len() {
            assert(ids2[k] == ids[k]);
            text::lemma_first_index_is(ids2, other, k);
        } else if other == e.ssid {
            text::lemma_first_index_is(ids2, other, ids.len() as int);
        } else {
            text::lemma_first_index_is(ids2, other, ids2.len() as int);
        }
        if ids.no_duplicates() {
            assert forall|a: int, b: int|
                0 <= a < ids2.len() && 0 <= b < ids2.len() && a != b implies ids2[a] != ids2[b] by {
                if a < ids.len() {
                    assert(ids.contains(ids[a]));
                }
                if b < ids.len() {
                    assert(ids.contains(ids[b]));
                }
            }
        }
    } else {
        assert(ids2 =~= ids);
    }
}

/// Each broadcast SSID is shown once in a scan, at the strongest of its signals;
/// no other is shown.
pub proof fn a_scan_shows_the_strongest(aps: Seq<ApModel>, ssid: Seq<char>)
    ensures
        shown_rank(scanned(aps), ssid) == (if ssid.len() == 0 {
            None
        } else {
            match strongest(aps, ssid) {
                Some(s) => Some(s as int),
                None => None,
            }
        }),
        scan_names(scanned(aps)).no_duplicates(),
    decreases aps.len(),
{
    if aps.len() > 0 {
        a_scan_shows_the_strongest(aps.drop_last(), ssid);
        lemma_rank_of_decimal(aps.last().strength as nat);
        lemma_scan_with(scanned(aps.drop_last()), scan_entry(aps.last()), ssid);
    }
}

// ---- Devices -------------------------------------------------------------

/// The kind of a Wi-Fi device.
pub const DEV_TYPE_WIFI: u32 = 2;

/// The state of a device that is connected.
pub const DEV_STATE_ACTIVATED: u32 = 100;

/// A device of NetworkManager: its path, and what could be read of it.
#[derive(Debug)]
pub struct Device {
    pub path: String,
    pub kind: Option<u32>,
    pub interface: Option<String>,
}

#[verifier::ext_equal]
pub struct DeviceModel {
    pub path: Seq<char>,
    pub kind: Option<u32>,
    pub interface: Option<Seq<char>>,
}

impl View for Device {
    type V = DeviceModel;

    open spec fn view(&self) -> DeviceModel {
        DeviceModel {
            path: self.path@,
            kind: self.kind,
            interface: text::opt_view(self.interface),
        }
    }
}

/// The models behind a list of devices.
pub open spec fn devices(v: Seq<Device>) -> Seq<DeviceModel> {
    v.map_values(|d: Device| d@)
}

/// The path of the first device with this interface, unless one before it could
/// not be read.
pub open spec fn path_of(list: Seq<DeviceModel>, iface: Seq<char>) -> Option<Seq<char>>
    decreases list.len(),
{
    if list.len() == 0 {
        None
    } else {
        match list[0].interface {
            None => None,
            Some(name) => if name == iface {
                Some(list[0].path)
            } else {
                path_of(list.drop_first(), iface)
            },
        }
    }
}

/// The object path of the device whose interface is `iface`.
pub fn device_path(list: &Vec<Device>, iface: &str) -> (r: Option<String>)
    ensures
        text::opt_view(r) == path_of(devices(list@), iface@),
{
    let ghost all = devices(list@);
    let mut i: usize = 0;
    assert(all.skip(0) =~= all);
    while i < list.len()
        invariant
            i <= list@.len(),
            all == devices(list@),
            path_of(all, iface@) == path_of(all.skip(i as int), iface@),
        decreases list@.len() - i,
    {
        assert(all.skip(i as int)[0] == list@[i as int]@);
        match &list[i].interface {
            None => {
                return None;
            },
            Some(name) => {
                if text::same(name.as_str(), iface) {
                    return Some(list[i].path.clone());
                }
            },
        }
        assert(all.skip(i as int).drop_first() =~= all.skip(i + 1));
        i += 1;
    }
    None
}

/// The paths of the devices that are known to be Wi-Fi devices, in order.
pub open spec fn wifi_paths(list: Seq<DeviceModel>) -> Seq<Seq<char>>
    decreases list.len(),
{
    if list.len() == 0 {
        Seq::empty()
    } else {
        let before = wifi_paths(list.drop_last());
        if list.last().kind == Some(DEV_TYPE_WIFI) {
            before.push(list.last().path)
        } else {
            before
        }
    }
}

/// Object paths of every Wi-Fi device.
pub fn wifi_device_paths(list: &Vec<Device>) -> (r: Vec<String>)
    ensures
        text::views(r@) == wifi_paths(devices(list@)),
{
    let ghost all = devices(list@);
    let mut out: Vec<String> = Vec::new();
    let mut i: usize = 0;
    assert(text::views(out@) =~= wifi_paths(all.take(0)));
    while i < list.len()
        invariant
            i <= list@.len(),
            all == devices(list@),
            text::views(out@) == wifi_paths(all.take(i as int)),
        decreases list@.len() - i,
    {
        assert(all.take(i + 1).drop_last() =~= all.take(i as int));
        assert(all.take(i + 1).last() == list@[i as int]@);
        let wifi = match list[i].kind {
            Some(k) => k == DEV_TYPE_WIFI,
            None => false,
        };
        if wifi {
            out.push(list[i].path.clone());
        }
        i += 1;
    }
    assert(all.take(i as int) =~= all);
    out
}

/// The interfaces of the Wi-Fi devices, in order; `None` where a device or the
/// interface of a Wi-Fi device could not be read.
pub open spec fn wifi_names(list: Seq<DeviceModel>) -> Option<Seq<Seq<char>>>
    decreases list.len(),
{
    if list.len() == 0 {
        Some(Seq::empty())
    } else {
        match (wifi_names(list.drop_last()), list.last().kind) {
            (Some(before), Some(k)) => if k != DEV_TYPE_WIFI {
                Some(before)
            } else {
                match list.last().interface {
                    Some(name) => Some(before.push(name)),
                    None => None,
                }
            },
            _ => None,
        }
    }
}

/// The Wi-Fi interface to use: the preferred one where it is there, or else the
/// first.
pub open spec fn chosen_interface(
    list: Seq<DeviceModel>,
    pref: Option<Seq<char>>,
) -> Option<Seq<char>> {
    match wifi_names(list) {
        Some(names) => if pref is Some && names.contains(pref->Some_0) {
            pref
        } else if names.len() > 0 {
            Some(names[0])
        } else {
            None
        },
        None => None,
    }
}

proof fn lemma_wifi_names_unread(list: Seq<DeviceModel>, i: int)
    requires
        0 <= i <= list.len(),
        wifi_names(list.take(i)) is None,
    ensures
        wifi_names(list) is None,
    decreases list.len() - i,
{
    if i < list.len() {
        assert(list.take(i + 1).drop_last() =~= list.take(i));
        lemma_wifi_names_unread(list, i + 1);
    } else {
        assert(list.take(i) =~= list);
    }
}

/// Find the Wi-Fi interface. When `pref` is `Some`, that exact device is
/// used if present; otherwise (or if the preferred device is missing — e.g.
/// an unplugged USB dongle) the first Wi-Fi device wins.
pub fn wifi_interface_preferred(list: &Vec<Device>, pref: Option<&str>) -> (r: Option<String>)
    ensures
        text::opt_view(r) == chosen_interface(devices(list@), text::opt_str_view(pref)),
{
    let ghost all = devices(list@);
    let mut wifi: Vec<String> = Vec::new();
    let mut i: usize = 0;
    assert(text::views(wifi@) =~= Seq::<Seq<char>>::empty());
    assert(all.take(0).len() == 0);
    while i < list.len()
        invariant
            i <= list@.len(),
            all == devices(list@),
            wifi_names(all.take(i as int)) == Some(text::views(wifi@)),
        decreases list@.len() - i,
    {
        assert(all.take(i + 1).drop_last() =~= all.take(i as int));
        assert(all.take(i + 1).last() == list@[i as int]@);
        match list[i].kind {
            None => {
                proof {
                    lemma_wifi_names_unread(all, i + 1);
                }
                return None;
            },
            Some(k) => {
                if k == DEV_TYPE_WIFI {
                    match &list[i].interface {
                        None => {
                            proof {
                                lemma_wifi_names_unread(all, i + 1);
                            }
                            return None;
                        },
                        Some(name) => wifi.push(name.clone()),
                    }
                }
            },
        }
        i += 1;
    }
    assert(all.take(i as int) =~= all);
    match pref {
        Some(p) => {
            if text::list_has(&wifi, p) {
                return Some(p.to_string());
            }
        },
        None => {},
    }
    if wifi.len() > 0 {
        Some(wifi[0].clone())
    } else {
        None
    }
}

/// The first Wi-Fi interface.
pub fn wifi_interface(list: &Vec<Device>) -> (r: Option<String>)
    ensures
        text::opt_view(r) == chosen_interface(devices(list@), None),
{
    wifi_interface_preferred(list, None)
}

/// Whether a device is connected, by its state where that could be read.
pub fn device_connected(state: Option<u32>) -> (r: bool)
    ensures
        r == (state == Some(DEV_STATE_ACTIVATED)),
{
    match state {
        Some(s) => s == DEV_STATE_ACTIVATED,
        None => false,
    }
}

/// The SSID of the active access point; none for a hidden one.
pub open spec fn ssid_text(bytes: Seq<u8>) -> Option<Seq<char>> {
    if lossy_text(bytes).len() == 0 {
        None
    } else {
        Some(lossy_text(bytes))
    }
}

/// The path of no object.
pub open spec fn no_path(path: Seq<char>) -> bool {
    path == "/"@
}

/// Whether a path leads to an object.
pub fn is_path(path: &str) -> (r: bool)
    ensures
        r == !no_path(path@),
{
    !text::same(path, "/")
}

/// The SSID of the active access point, from its bytes; none where it is empty.
pub fn active_ssid(bytes: &Vec<u8>) -> (r: Option<String>)
    ensures
        text::opt_view(r) == ssid_text(bytes@),
{
    let s = decode(bytes);
    if s.as_str().is_empty() {
        None
    } else {
        Some(s)
    }
}

/// An address as a dotted quad, its highest byte first.
pub open spec fn dotted(ip: nat) -> Seq<char> {
    text::decimal(ip / 0x100_0000 % 256) + "."@ + text::decimal(ip / 0x1_0000 % 256) + "."@
        + text::decimal(ip / 0x100 % 256) + "."@ + text::decimal(ip % 256)
}

/// The first of some addresses, as a dotted quad.
pub fn ipv4_address(addresses: &Vec<(u32, u32, u32)>) -> (r: Option<String>)
    ensures
        text::opt_view(r) == (if addresses@.len() == 0 {
            None
        } else {
            Some(dotted(addresses@[0].0 as nat))
        }),
{
    if addresses.len() == 0 {
        return None;
    }
    let ip: u32 = addresses[0].0;
    let a: u32 = (ip >> 24) & 0xff;
    let b: u32 = (ip >> 16) & 0xff;
    let c: u32 = (ip >> 8) & 0xff;
    let d: u32 = ip & 0xff;
    assert((ip >> 24) & 0xff == ip / 0x100_0000 % 256) by (bit_vector);
    assert((ip >> 16) & 0xff == ip / 0x1_0000 % 256) by (bit_vector);
    assert((ip >> 8) & 0xff == ip / 0x100 % 256) by (bit_vector);
    assert(ip & 0xff == ip % 256) by (bit_vector);
    Some(
        text::to_decimal(a as u64).concat(".").concat(
            text::to_decimal(b as u64).as_str(),
        ).concat(".").concat(text::to_decimal(c as u64).as_str()).concat(".").concat(
            text::to_decimal(d as u64).as_str(),
        ),
    )
}

// ---- Identifiers ---------------------------------------------------------

/// A hexadecimal digit.
pub open spec fn hex_digit(n: nat) -> char {
    if n < 10 {
        (48 + n) as char
    } else {
        (87 + n) as char
    }
}

/// A byte in two hexadecimal digits.
pub open spec fn hex(b: u8) -> Seq<char> {
    seq![hex_digit(b as nat / 16), hex_digit(b as nat % 16)]
}

/// Some bytes in hexadecimal digits.
pub open spec fn hex_all(b: Seq<u8>) -> Seq<char>
    decreases b.len(),
{
    if b.len() == 0 {
        Seq::empty()
    } else {
        hex_all(b.drop_last()) + hex(b.last())
    }
}

/// The bytes of a random (version 4) identifier.
pub open spec fn versioned(b: Seq<u8>) -> Seq<u8> {
    b.update(6, (0x40 + b[6] % 16) as u8).update(8, (0x80 + b[8] % 64) as u8)
}

/// An identifier in its usual form.
pub open spec fn uuid_text(b: Seq<u8>) -> Seq<char> {
    let v = versioned(b);
    hex_all(v.subrange(0, 4)) + "-"@ + hex_all(v.subrange(4, 6)) + "-"@ + hex_all(
        v.subrange(6, 8),
    ) + "-"@ + hex_all(v.subrange(8, 10)) + "-"@ + hex_all(v.subrange(10, 16))
}

fn hex_char(n: u8) -> (c: char)
    requires
        n < 16,
    ensures
        c == hex_digit(n as nat),
{
    if n < 10 {
        (48 + n) as char
    } else {
        (87 + n) as char
    }
}

fn hex_of(b: &Vec<u8>, lo: usize, hi: usize) -> (r: String)
    requires
        lo <= hi <= b@.len(),
    ensures
        r@ == hex_all(b@.subrange(lo as int, hi as int)),
{
    let mut r = String::new();
    let mut i: usize = lo;
    assert(r@ =~= hex_all(b@.subrange(lo as int, lo as int)));
    while i < hi
        invariant
            lo <= i <= hi <= b@.len(),
            r@ == hex_all(b@.subrange(lo as int, i as int)),
        decreases hi - i,
    {
        let x = b[i];
        assert(b@.subrange(lo as int, i + 1).drop_last() =~= b@.subrange(lo as int, i as int));
        let ghost before = r@;
        r.push(hex_char(x / 16));
        r.push(hex_char(x % 16));
        assert(r@ =~= before + hex(x));
        i += 1;
    }
    r
}

/// A random (version 4) identifier made of these bytes.
pub fn new_uuid(random: &[u8; 16]) -> (r: String)
    ensures
        r@ == uuid_text(random@),
{
    let mut b: Vec<u8> = Vec::new();
    let mut i: usize = 0;
    while i < 16
        invariant
            i <= 16,
            b@ == random@.take(i as int),
        decreases 16 - i,
    {
        b.push(random[i]);
        assert(random@.take(i + 1) =~= random@.take(i as int).push(random@[i as int]));
        i += 1;
    }
    assert(random@.take(16) =~= random@);
    let six: u8 = b[6];
    let eight: u8 = b[8];
    assert((six & 0x0f) | 0x40 == 0x40 + six % 16) by (bit_vector);
    assert((eight & 0x3f) | 0x80 == 0x80 + eight % 64) by (bit_vector);
    b.set(6, (six & 0x0f) | 0x40);
    b.set(8, (eight & 0x3f) | 0x80);
    assert(b@ =~= versioned(random@));
    hex_of(&b, 0, 4).concat("-").concat(hex_of(&b, 4, 6).as_str()).concat("-").concat(
        hex_of(&b, 6, 8).as_str(),
    ).concat("-").concat(hex_of(&b, 8, 10).as_str()).concat("-").concat(
        hex_of(&b, 10, 16).as_str(),
    )
}

proof fn lemma_hex_len(b: Seq<u8>)
    ensures
        hex_all(b).len() == 2 * b.len(),
        b.len() > 0 ==> hex_all(b)[0] == hex_digit(b[0] as nat / 16),
    decreases b.len(),
{
    if b.len() > 0 {
        lemma_hex_len(b.drop_last());
        if b.len() > 1 {
            assert(b.drop_last()[0] == b[0]);
        }
    }
}

/// An identifier has 36 characters with dashes in the usual places, and says
/// that it is of version 4.
pub proof fn an_identifier_has_its_shape(b: Seq<u8>)
    requires
        b.len() == 16,
    ensures
        uuid_text(b).len() == 36,
        uuid_text(b)[8] == '-',
        uuid_text(b)[13] == '-',
        uuid_text(b)[18] == '-',
        uuid_text(b)[23] == '-',
        uuid_text(b)[14] == '4',
{
    let v = versioned(b);
    lemma_hex_len(v.subrange(0, 4));
    lemma_hex_len(v.subrange(4, 6));
    lemma_hex_len(v.subrange(6, 8));
    lemma_hex_len(v.subrange(8, 10));
    lemma_hex_len(v.subrange(10, 16));
    reveal_strlit("-");
    assert(v.subrange(6, 8)[0] == v[6]);
    assert(v[6] as nat / 16 == 4);
}

// ---- Connecting ----------------------------------------------------------

/// What came of a call that changes something.
#[derive(Debug)]
pub enum Call {
    Done,
    /// The object to call is not there.
    Unavailable,
    /// The call failed with this error.
    Failed(String),
}

pub enum CallModel {
    Done,
    Unavailable,
    Failed(Seq<char>),
}

impl View for Call {
    type V = CallModel;

    open spec fn view(&self) -> CallModel {
        match self {
            Call::Done => CallModel::Done,
            Call::Unavailable => CallModel::Unavailable,
            Call::Failed(e) => CallModel::Failed(e@),
        }
    }
}

/// What a look at the state of a device tells.
#[derive(Debug)]
pub enum Poll {
    State(u32),
    /// The device is not there.
    Gone,
    Failed(String),
}

pub enum PollModel {
    State(u32),
    Gone,
    Failed(Seq<char>),
}

impl View for Poll {
    type V = PollModel;

    open spec fn view(&self) -> PollModel {
        match self {
            Poll::State(s) => PollModel::State(*s),
            Poll::Gone => PollModel::Gone,
            Poll::Failed(e) => PollModel::Failed(e@),
        }
    }
}

/// Where a connect stands: which answer it waits for.
#[derive(Debug)]
pub enum Phase {
    Bus,
    Devices,
    Profiles,
    /// The settings of this saved profile.
    Saved(String),
    /// Their update.
    Updated(String),
    /// The activation of a saved profile.
    Activated,
    /// The creation and activation of a new one.
    Added,
    /// The state of the device.
    Waiting,
    /// The path of the active connection, to pin DNS on.
    DnsActive,
    /// Its settings.
    DnsSettings(String),
    /// Their update.
    DnsUpdated,
    /// The devices, once more.
    DnsDevices,
    /// The settings taking effect.
    Reapplied,
    Finished,
}

pub enum PhaseModel {
    Bus,
    Devices,
    Profiles,
    Saved(Seq<char>),
    Updated(Seq<char>),
    Activated,
    Added,
    Waiting,
    DnsActive,
    DnsSettings(Seq<char>),
    DnsUpdated,
    DnsDevices,
    Reapplied,
    Finished,
}

impl View for Phase {
    type V = PhaseModel;

    open spec fn view(&self) -> PhaseModel {
        match self {
            Phase::Bus => PhaseModel::Bus,
            Phase::Devices => PhaseModel::Devices,
            Phase::Profiles => PhaseModel::Profiles,
            Phase::Saved(p) => PhaseModel::Saved(p@),
            Phase::Updated(p) => PhaseModel::Updated(p@),
            Phase::Activated => PhaseModel::Activated,
            Phase::Added => PhaseModel::Added,
            Phase::Waiting => PhaseModel::Waiting,
            Phase::DnsActive => PhaseModel::DnsActive,
            Phase::DnsSettings(p) => PhaseModel::DnsSettings(p@),
            Phase::DnsUpdated => PhaseModel::DnsUpdated,
            Phase::DnsDevices => PhaseModel::DnsDevices,
            Phase::Reapplied => PhaseModel::Reapplied,
            Phase::Finished => PhaseModel::Finished,
        }
    }
}

impl Clone for Phase {
    fn clone(&self) -> (r: Phase)
        ensures
            r@ == self@,
    {
        match self {
            Phase::Bus => Phase::Bus,
            Phase::Devices => Phase::Devices,
            Phase::Profiles => Phase::Profiles,
            Phase::Saved(p) => Phase::Saved(p.clone()),
            Phase::Updated(p) => Phase::Updated(p.clone()),
            Phase::Activated => Phase::Activated,
            Phase::Added => Phase::Added,
            Phase::Waiting => Phase::Waiting,
            Phase::DnsActive => Phase::DnsActive,
            Phase::DnsSettings(p) => Phase::DnsSettings(p.clone()),
            Phase::DnsUpdated => Phase::DnsUpdated,
            Phase::DnsDevices => Phase::DnsDevices,
            Phase::Reapplied => Phase::Reapplied,
            Phase::Finished => Phase::Finished,
        }
    }
}

/// What a connect asks of NetworkManager. Where settings are sent, they are
/// those that the connect has at that time.
#[derive(Debug)]
pub enum Ask {
    OpenBus,
    ListDevices,
    ListProfiles,
    ReadSettings(String),
    /// Write the settings of the profile at this path to disk.
    Update(String),
    Activate { profile: String, device: String },
    /// Create a profile on disk and activate it on this device.
    AddAndActivate { device: String },
    /// The state of this device, after a short while.
    PollDevice(String),
    /// The profile behind the active connection of this interface.
    FindActive(String),
    /// Make the settings take effect on this device.
    Reapply(String),
    Finish(Result<(), String>),
}

pub enum AskModel {
    OpenBus,
    ListDevices,
    ListProfiles,
    ReadSettings(Seq<char>),
    Update(Seq<char>),
    Activate { profile: Seq<char>, device: Seq<char> },
    AddAndActivate { device: Seq<char> },
    PollDevice(Seq<char>),
    FindActive(Seq<char>),
    Reapply(Seq<char>),
    Finish(Result<(), Seq<char>>),
}

impl View for Ask {
    type V = AskModel;

    open spec fn view(&self) -> AskModel {
        match self {
            Ask::OpenBus => AskModel::OpenBus,
            Ask::ListDevices => AskModel::ListDevices,
            Ask::ListProfiles => AskModel::ListProfiles,
            Ask::ReadSettings(p) => AskModel::ReadSettings(p@),
            Ask::Update(p) => AskModel::Update(p@),
            Ask::Activate { profile, device } => AskModel::Activate {
                profile: profile@,
                device: device@,
            },
            Ask::AddAndActivate { device } => AskModel::AddAndActivate { device: device@ },
            Ask::PollDevice(p) => AskModel::PollDevice(p@),
            Ask::FindActive(i) => AskModel::FindActive(i@),
            Ask::Reapply(d) => AskModel::Reapply(d@),
            Ask::Finish(r) => AskModel::Finish(backend::result_view(*r)),
        }
    }
}

/// A saved profile: its path and what tells it apart, where that could be read.
pub type SavedProfile = (String, Option<ProfileInfo>);

/// What came of it.
#[derive(Debug)]
pub enum Reply {
    Bus(bool),
    Devices(Vec<Device>),
    Profiles(Vec<SavedProfile>),
    Settings(Option<SettingsMap>),
    Called(Call),
    /// The state of the device, and whether the time to wait for it is over.
    Polled(Poll, bool),
    Path(Option<String>),
}

pub enum ReplyModel {
    Bus(bool),
    Devices(Seq<DeviceModel>),
    Profiles(Seq<(Seq<char>, Option<InfoModel>)>),
    Settings(Option<ConnectionModel>),
    Called(CallModel),
    Polled(PollModel, bool),
    Path(Option<Seq<char>>),
}

/// The models behind a list of saved profiles.
pub open spec fn saved_models(v: Seq<SavedProfile>) -> Seq<(Seq<char>, Option<InfoModel>)> {
    v.map_values(|p: SavedProfile| (p.0@, opt_info(p.1)))
}

/// The model of optional settings.
pub open spec fn opt_settings(o: Option<SettingsMap>) -> Option<ConnectionModel> {
    match o {
        Some(s) => Some(s@),
        None => None,
    }
}

impl View for Reply {
    type V = ReplyModel;

    open spec fn view(&self) -> ReplyModel {
        match self {
            Reply::Bus(b) => ReplyModel::Bus(*b),
            Reply::Devices(d) => ReplyModel::Devices(devices(d@)),
            Reply::Profiles(p) => ReplyModel::Profiles(saved_models(p@)),
            Reply::Settings(s) => ReplyModel::Settings(opt_settings(*s)),
            Reply::Called(c) => ReplyModel::Called(c@),
            Reply::Polled(p, late) => ReplyModel::Polled(p@, *late),
            Reply::Path(p) => ReplyModel::Path(text::opt_view(*p)),
        }
    }
}

/// A connect: what it was started with, what it has learnt since, and where it
/// stands.
#[verifier::ext_equal]
pub struct ConnectModel {
    pub iface: Seq<char>,
    pub net: NetworkModel,
    pub wait: u32,
    pub dns: Seq<char>,
    pub random: Seq<u8>,
    pub device: Seq<char>,
    pub settings: ConnectionModel,
    pub phase: PhaseModel,
}

/// The connect goes on to this phase, with this question.
pub open spec fn on(c: ConnectModel, phase: PhaseModel, ask: AskModel) -> (ConnectModel, AskModel) {
    (ConnectModel { phase, ..c }, ask)
}

/// The connect ends.
pub open spec fn over(c: ConnectModel, r: Result<(), Seq<char>>) -> (ConnectModel, AskModel) {
    on(c, PhaseModel::Finished, AskModel::Finish(r))
}

/// A call has been made; what comes next where it worked.
pub open spec fn called(
    c: ConnectModel,
    call: CallModel,
    missing: Seq<char>,
    next: (ConnectModel, AskModel),
) -> (ConnectModel, AskModel) {
    match call {
        CallModel::Done => next,
        CallModel::Unavailable => over(c, Err(missing)),
        CallModel::Failed(e) => over(c, Err("D-Bus: "@ + e)),
    }
}

/// The saved profile for an SSID, where there is one.
pub open spec fn saved_for(
    list: Seq<(Seq<char>, Option<InfoModel>)>,
    ssid: Seq<char>,
) -> Option<Seq<char>> {
    match profile_for(list.map_values(|p: (Seq<char>, Option<InfoModel>)| p.1), ssid) {
        Some(i) => Some(list[i].0),
        None => None,
    }
}

/// The path of the first saved connection profile whose name or SSID is `ssid`;
/// failing that, of the first whose name is `ssid` and a number, as
/// NetworkManager names duplicates. Profiles that could not be read are passed
/// over.
pub fn first_profile_for_ssid(list: &Vec<SavedProfile>, ssid: &str) -> (r: Option<String>)
    ensures
        text::opt_view(r) == saved_for(saved_models(list@), ssid@),
{
    let ghost all = saved_models(list@);
    let ghost known = all.map_values(|p: (Seq<char>, Option<InfoModel>)| p.1);
    let mut fallback: Option<usize> = None;
    let mut i: usize = 0;
    while i < list.len()
        invariant
            i <= list@.len(),
            all == saved_models(list@),
            known == all.map_values(|p: (Seq<char>, Option<InfoModel>)| p.1),
            first_for(known, ssid@, 0) == first_for(known, ssid@, i as int),
            match fallback {
                Some(k) => k < i && first_numbered(known, ssid@, 0) == Some(k as int),
                None => first_numbered(known, ssid@, 0) == first_numbered(known, ssid@, i as int),
            },
        decreases list@.len() - i,
    {
        assert(known[i as int] == opt_info(list@[i as int].1));
        match &list[i].1 {
            Some(p) => {
                if tell_for(p, ssid) {
                    return Some(list[i].0.clone());
                }
                if fallback.is_none() && tell_numbered(p, ssid) {
                    fallback = Some(i);
                }
            },
            None => {},
        }
        i += 1;
    }
    match fallback {
        Some(k) => Some(list[k].0.clone()),
        None => None,
    }
}

/// The saved profile is activated.
pub open spec fn activate(c: ConnectModel, profile: Seq<char>) -> (ConnectModel, AskModel) {
    on(c, PhaseModel::Activated, AskModel::Activate { profile, device: c.device })
}

/// The device is asked for its state.
pub open spec fn poll(c: ConnectModel) -> (ConnectModel, AskModel) {
    on(c, PhaseModel::Waiting, AskModel::PollDevice(c.device))
}

/// The kind of reply that each phase waits for.
pub open spec fn fits(phase: PhaseModel, reply: ReplyModel) -> bool {
    match phase {
        PhaseModel::Bus => reply is Bus,
        PhaseModel::Devices | PhaseModel::DnsDevices => reply is Devices,
        PhaseModel::Profiles => reply is Profiles,
        PhaseModel::Saved(_) | PhaseModel::DnsSettings(_) => reply is Settings,
        PhaseModel::Updated(_) | PhaseModel::Activated | PhaseModel::Added
        | PhaseModel::DnsUpdated | PhaseModel::Reapplied => reply is Called,
        PhaseModel::Waiting => reply is Polled,
        PhaseModel::DnsActive => reply is Path,
        PhaseModel::Finished => false,
    }
}

/// What follows when `reply` is what the connect waited for. A saved profile for
/// the SSID is used again, brought up to date where there is a secret to send or
/// the network is hidden; without one a profile is created. When the device is
/// up, DNS is pinned; a failure to do so is no failure to connect.
pub open spec fn step(c: ConnectModel, reply: ReplyModel) -> (ConnectModel, AskModel) {
    match (c.phase, reply) {
        (PhaseModel::Bus, ReplyModel::Bus(there)) => if there {
            on(c, PhaseModel::Devices, AskModel::ListDevices)
        } else {
            over(c, Err("cannot connect to the D-Bus system bus"@))
        },
        (PhaseModel::Devices, ReplyModel::Devices(list)) => match path_of(list, c.iface) {
            Some(device) => on(
                ConnectModel { device, ..c },
                PhaseModel::Profiles,
                AskModel::ListProfiles,
            ),
            None => over(c, Err("no NetworkManager device named '"@ + c.iface + "'"@)),
        },
        (PhaseModel::Profiles, ReplyModel::Profiles(list)) => match saved_for(list, c.net.ssid) {
            Some(p) => if c.net.password is Some || c.net.hidden {
                on(c, PhaseModel::Saved(p), AskModel::ReadSettings(p))
            } else {
                activate(c, p)
            },
            None => on(
                ConnectModel { settings: new_settings(c.net, uuid_text(c.random)), ..c },
                PhaseModel::Added,
                AskModel::AddAndActivate { device: c.device },
            ),
        },
        (PhaseModel::Saved(p), ReplyModel::Settings(s)) => match s {
            Some(s) => on(
                ConnectModel { settings: updated_settings(c.net, s), ..c },
                PhaseModel::Updated(p),
                AskModel::Update(p),
            ),
            None => over(c, Err("failed to read saved profile settings"@)),
        },
        (PhaseModel::Updated(p), ReplyModel::Called(r)) => called(
            c,
            r,
            "NetworkManager Settings.Connection unavailable"@,
            activate(c, p),
        ),
        (PhaseModel::Activated, ReplyModel::Called(r)) => called(
            c,
            r,
            "NetworkManager unavailable"@,
            poll(c),
        ),
        (PhaseModel::Added, ReplyModel::Called(r)) => called(
            c,
            r,
            "NetworkManager unavailable"@,
            poll(c),
        ),
        (PhaseModel::Waiting, ReplyModel::Polled(p, late)) => match p {
            PollModel::State(s) => if s == DEV_STATE_ACTIVATED {
                if text::trimmed(c.dns).len() == 0 {
                    over(c, Ok(()))
                } else {
                    on(c, PhaseModel::DnsActive, AskModel::FindActive(c.iface))
                }
            } else if late {
                over(
                    c,
                    Err(
                        "timed out waiting for device "@ + c.device + " to activate after "@
                            + text::decimal(c.wait as nat) + "s"@,
                    ),
                )
            } else {
                poll(c)
            },
            PollModel::Gone => over(c, Err("device disappeared while waiting for activation"@)),
            PollModel::Failed(e) => over(c, Err("D-Bus: "@ + e)),
        },
        (PhaseModel::DnsActive, ReplyModel::Path(p)) => match p {
            Some(p) => on(c, PhaseModel::DnsSettings(p), AskModel::ReadSettings(p)),
            None => over(c, Ok(())),
        },
        (PhaseModel::DnsSettings(p), ReplyModel::Settings(s)) => match s {
            Some(s) => on(
                ConnectModel { settings: with_dns(s, c.dns), ..c },
                PhaseModel::DnsUpdated,
                AskModel::Update(p),
            ),
            None => over(c, Ok(())),
        },
        (PhaseModel::DnsUpdated, ReplyModel::Called(r)) => if r is Unavailable {
            over(c, Ok(()))
        } else {
            on(c, PhaseModel::DnsDevices, AskModel::ListDevices)
        },
        (PhaseModel::DnsDevices, ReplyModel::Devices(list)) => match path_of(list, c.iface) {
            Some(d) => on(c, PhaseModel::Reapplied, AskModel::Reapply(d)),
            None => over(c, Ok(())),
        },
        _ => over(c, Ok(())),
    }
}

/// A connect in progress.
#[derive(Debug)]
pub struct Connect {
    iface: String,
    net: NetworkDef,
    wait: u32,
    dns: String,
    random: [u8; 16],
    device: String,
    settings: SettingsMap,
    phase: Phase,
}

impl View for Connect {
    type V = ConnectModel;

    closed spec fn view(&self) -> ConnectModel {
        ConnectModel {
            iface: self.iface@,
            net: self.net@,
            wait: self.wait,
            dns: self.dns@,
            random: self.random@,
            device: self.device@,
            settings: self.settings@,
            phase: self.phase@,
        }
    }
}

/// Seconds to wait for a device to come up: at least one.
pub fn wait_limit(wait: u32) -> (r: u32)
    ensures
        r == (if wait == 0 {
            1
        } else {
            wait
        }),
{
    if wait == 0 {
        1
    } else {
        wait
    }
}

impl Connect {
    /// Starts a connect to a network with this interface. `random` serves for
    /// the identifier of a new profile.
    pub fn new(iface: &str, net: &NetworkDef, wait: u32, dns: &str, random: [u8; 16]) -> (r: (
        Connect,
        Ask,
    ))
        ensures
            r.0@ == (ConnectModel {
                iface: iface@,
                net: net@,
                wait,
                dns: dns@,
                random: random@,
                device: Seq::empty(),
                settings: Map::empty(),
                phase: PhaseModel::Bus,
            }),
            r.1@ == AskModel::OpenBus,
    {
        let c = Connect {
            iface: iface.to_string(),
            net: net.clone(),
            wait,
            dns: dns.to_string(),
            random,
            device: String::new(),
            settings: Dict::new(),
            phase: Phase::Bus,
        };
        assert(c.device@ =~= Seq::<char>::empty());
        (c, Ask::OpenBus)
    }

    /// The settings to send.
    pub fn settings(&self) -> (r: &SettingsMap)
        ensures
            r@ == self@.settings,
    {
        &self.settings
    }

    fn finish(&mut self, result: Result<(), String>) -> (r: Ask)
        ensures
            (final(self)@, r@) == over(old(self)@, backend::result_view(result)),
    {
        self.phase = Phase::Finished;
        Ask::Finish(result)
    }

    fn activate(&mut self, profile: String) -> (r: Ask)
        ensures
            (final(self)@, r@) == activate(old(self)@, profile@),
    {
        self.phase = Phase::Activated;
        Ask::Activate { profile, device: self.device.clone() }
    }

    fn poll(&mut self) -> (r: Ask)
        ensures
            (final(self)@, r@) == poll(old(self)@),
    {
        self.phase = Phase::Waiting;
        Ask::PollDevice(self.device.clone())
    }

    fn fail(&mut self, call: &Call, missing: &str) -> (r: Ask)
        requires
            !(call@ is Done),
        ensures
            (final(self)@, r@) == called(
                old(self)@,
                call@,
                missing@,
                (old(self)@, AskModel::OpenBus),
            ),
    {
        match call {
            Call::Failed(e) => self.finish(Err("D-Bus: ".to_string().concat(e.as_str()))),
            _ => self.finish(Err(missing.to_string())),
        }
    }

    fn on_profiles(&mut self, list: &Vec<SavedProfile>) -> (r: Ask)
        requires
            old(self)@.phase is Profiles,
        ensures
            (final(self)@, r@) == step(old(self)@, ReplyModel::Profiles(saved_models(list@))),
    {
        match first_profile_for_ssid(list, self.net.ssid.as_str()) {
            Some(p) => {
                if self.net.password.is_some() || self.net.hidden {
                    self.phase = Phase::Saved(p.clone());
                    Ask::ReadSettings(p)
                } else {
                    self.activate(p)
                }
            },
            None => {
                let uuid = new_uuid(&self.random);
                self.settings = wifi_settings(&self.net, uuid.as_str());
                self.phase = Phase::Added;
                Ask::AddAndActivate { device: self.device.clone() }
            },
        }
    }

    fn on_polled(&mut self, p: &Poll, late: bool) -> (r: Ask)
        requires
            old(self)@.phase is Waiting,
        ensures
            (final(self)@, r@) == step(old(self)@, ReplyModel::Polled(p@, late)),
    {
        match p {
            Poll::State(s) => {
                if *s == DEV_STATE_ACTIVATED {
                    if text::trim(self.dns.as_str()).as_str().is_empty() {
                        self.finish(Ok(()))
                    } else {
                        self.phase = Phase::DnsActive;
                        Ask::FindActive(self.iface.clone())
                    }
                } else if late {
                    let e = "timed out waiting for device ".to_string().concat(
                        self.device.as_str(),
                    ).concat(" to activate after ").concat(
                        text::to_decimal(self.wait as u64).as_str(),
                    ).concat("s");
                    self.finish(Err(e))
                } else {
                    self.poll()
                }
            },
            Poll::Gone => self.finish(
                Err("device disappeared while waiting for activation".to_string()),
            ),
            Poll::Failed(e) => self.finish(Err("D-Bus: ".to_string().concat(e.as_str()))),
        }
    }

    fn on_settings(&mut self, p: String, s: Option<SettingsMap>) -> (r: Ask)
        requires
            old(self)@.phase == PhaseModel::Saved(p@),
        ensures
            (final(self)@, r@) == step(old(self)@, ReplyModel::Settings(opt_settings(s))),
    {
        match s {
            Some(s) => {
                let mut s = s;
                updated_settings_for(&self.net, &mut s);
                self.settings = s;
                self.phase = Phase::Updated(p.clone());
                Ask::Update(p)
            },
            None => self.finish(Err("failed to read saved profile settings".to_string())),
        }
    }

    fn on_dns_settings(&mut self, p: String, s: Option<SettingsMap>) -> (r: Ask)
        requires
            old(self)@.phase == PhaseModel::DnsSettings(p@),
        ensures
            (final(self)@, r@) == step(old(self)@, ReplyModel::Settings(opt_settings(s))),
    {
        match s {
            Some(s) => {
                let mut s = s;
                pin_dns(&mut s, self.dns.as_str());
                self.settings = s;
                self.phase = Phase::DnsUpdated;
                Ask::Update(p)
            },
            None => self.finish(Ok(())),
        }
    }

    /// Takes what came of the last question, and says what is asked next.
    pub fn next(&mut self, reply: Reply) -> (r: Ask)
        requires
            fits(old(self)@.phase, reply@),
        ensures
            (final(self)@, r@) == step(old(self)@, reply@),
    {
        match (self.phase.clone(), reply) {
            (Phase::Bus, Reply::Bus(there)) => {
                if there {
                    self.phase = Phase::Devices;
                    Ask::ListDevices
                } else {
                    self.finish(Err("cannot connect to the D-Bus system bus".to_string()))
                }
            },
            (Phase::Devices, Reply::Devices(list)) => match device_path(
                &list,
                self.iface.as_str(),
            ) {
                Some(device) => {
                    self.device = device;
                    self.phase = Phase::Profiles;
                    Ask::ListProfiles
                },
                None => {
                    let e = "no NetworkManager device named '".to_string().concat(
                        self.iface.as_str(),
                    ).concat("'");
                    self.finish(Err(e))
                },
            },
            (Phase::Profiles, Reply::Profiles(list)) => self.on_profiles(&list),
            (Phase::Saved(p), Reply::Settings(s)) => self.on_settings(p, s),
            (Phase::Updated(p), Reply::Called(call)) => match &call {
                Call::Done => self.activate(p),
                _ => self.fail(&call, "NetworkManager Settings.Connection unavailable"),
            },
            (Phase::Activated, Reply::Called(call)) => match &call {
                Call::Done => self.poll(),
                _ => self.fail(&call, "NetworkManager unavailable"),
            },
            (Phase::Added, Reply::Called(call)) => match &call {
                Call::Done => self.poll(),
                _ => self.fail(&call, "NetworkManager unavailable"),
            },
            (Phase::Waiting, Reply::Polled(p, late)) => self.on_polled(&p, late),
            (Phase::DnsActive, Reply::Path(p)) => match p {
                Some(p) => {
                    self.phase = Phase::DnsSettings(p.clone());
                    Ask::ReadSettings(p)
                },
                None => self.finish(Ok(())),
            },
            (Phase::DnsSettings(p), Reply::Settings(s)) => self.on_dns_settings(p, s),
            (Phase::DnsUpdated, Reply::Called(call)) => match &call {
                Call::Unavailable => self.finish(Ok(())),
                _ => {
                    self.phase = Phase::DnsDevices;
                    Ask::ListDevices
                },
            },
            (Phase::DnsDevices, Reply::Devices(list)) => match device_path(
                &list,
                self.iface.as_str(),
            ) {
                Some(d) => {
                    self.phase = Phase::Reapplied;
                    Ask::Reapply(d)
                },
                None => self.finish(Ok(())),
            },
            _ => self.finish(Ok(())),
        }
    }
}

/// With these replies the connect ends so, from this state and question on.
pub open spec fn ends(
    c: ConnectModel,
    ask: AskModel,
    replies: Seq<ReplyModel>,
    result: Result<(), Seq<char>>,
) -> bool
    decreases replies.len(),
{
    match ask {
        AskModel::Finish(r) => replies.len() == 0 && r == result,
        _ => {
            &&& replies.len() > 0
            &&& fits(c.phase, replies[0])
            &&& ends(step(c, replies[0]).0, step(c, replies[0]).1, replies.drop_first(), result)
        },
    }
}

/// The device is not known to be up yet.
pub open spec fn not_up_yet(phase: PhaseModel) -> bool {
    match phase {
        PhaseModel::DnsActive | PhaseModel::DnsSettings(_) | PhaseModel::DnsUpdated
        | PhaseModel::DnsDevices | PhaseModel::Reapplied | PhaseModel::Finished => false,
        _ => true,
    }
}

/// The device was found to be up.
pub open spec fn found_up(reply: ReplyModel) -> bool {
    reply matches ReplyModel::Polled(PollModel::State(s), _) && s == DEV_STATE_ACTIVATED
}

/// A connect succeeds only where the device was found to be up.
pub proof fn a_connect_succeeds_only_with_the_device_up(
    c: ConnectModel,
    ask: AskModel,
    replies: Seq<ReplyModel>,
)
    requires
        not_up_yet(c.phase),
        !(ask is Finish),
        ends(c, ask, replies, Ok(())),
    ensures
        exists|i: int| 0 <= i < replies.len() && found_up(#[trigger] replies[i]),
    decreases replies.len(),
{
    reveal_with_fuel(ends, 2);
    let r = replies[0];
    let (c2, a2) = step(c, r);
    let rest = replies.drop_first();
    if found_up(r) {
        assert(found_up(replies[0]));
    } else if not_up_yet(c2.phase) {
        a_connect_succeeds_only_with_the_device_up(c2, a2, rest);
        let i = choose|i: int| 0 <= i < rest.len() && found_up(#[trigger] rest[i]);
        assert(found_up(replies[i + 1]));
    }
}

/// A saved profile for the SSID is used again: no second one is created, and
/// without a password to send or a flag to set it is activated as it is.
pub proof fn a_saved_profile_is_used_again(
    c: ConnectModel,
    list: Seq<(Seq<char>, Option<InfoModel>)>,
    at: int,
)
    requires
        c.phase is Profiles,
        0 <= at < list.len(),
        list[at].1 matches Some(p) && is_for(p, c.net.ssid),
    ensures
        ({
            let ask = step(c, ReplyModel::Profiles(list)).1;
            if c.net.password is None && !c.net.hidden {
                ask is Activate
            } else {
                ask is ReadSettings
            }
        }),
{
    let known = list.map_values(|p: (Seq<char>, Option<InfoModel>)| p.1);
    assert(known[at] == list[at].1);
    the_profile_for_an_ssid_is_found(known, c.net.ssid, at);
}

// ---- What holds of every profile and network -----------------------------

/// A name counts as numbered for an SSID exactly where it is the SSID, a space and
/// then one or more decimal digits.
pub proof fn a_numbered_name_ends_in_digits(p: InfoModel, ssid: Seq<char>, d: Seq<char>)
    ensures
        p.id == Some(ssid + seq![' '] + d) ==> (is_numbered(p, ssid) <==> d.len() > 0 && (forall|
            k: int,
        |
            0 <= k < d.len() ==> '0' <= #[trigger] d[k] <= '9')),
        p.id is None ==> !is_numbered(p, ssid),
        is_numbered(p, ssid) ==> p.id is Some && p.id->Some_0.len() > ssid.len() + 1
            && p.id->Some_0.take(ssid.len() as int) == ssid && p.id->Some_0[ssid.len() as int]
            == ' ',
{
    reveal_strlit(" ");
    assert(" "@ =~= seq![' ']);
    let t = ssid + " "@;
    if p.id == Some(ssid + seq![' '] + d) {
        let id = p.id->Some_0;
        text::a_beginning_is_a_part(id, t, d);
        assert(id.take(t.len() as int) =~= t);
        assert(id.skip(ssid.len() as int + 1) =~= d);
    }
    if is_numbered(p, ssid) {
        let id = p.id->Some_0;
        text::a_beginning_is_a_part(id, t, d);
        assert(id.take(t.len() as int) == t);
        assert(id.take(ssid.len() as int) =~= id.take(t.len() as int).take(ssid.len() as int));
        assert(t.take(ssid.len() as int) =~= ssid);
        assert(id[ssid.len() as int] == id.take(t.len() as int)[ssid.len() as int]);
    }
}

proof fn lemma_first_for_is(list: Seq<Option<InfoModel>>, ssid: Seq<char>, from: int, i: int)
    requires
        0 <= from <= i <= list.len(),
        forall|j: int|
            from <= j < i ==> !(#[trigger] list[j] matches Some(p) && (p.id == Some(ssid) || p.ssid
                == Some(ssid))),
        i < list.len() ==> (list[i] matches Some(p) && (p.id == Some(ssid) || p.ssid == Some(
            ssid,
        ))),
    ensures
        first_for(list, ssid, from) == (if i < list.len() {
            Some(i)
        } else {
            None
        }),
    decreases i - from,
{
    if from < i {
        assert(!(list[from] matches Some(p) && (p.id == Some(ssid) || p.ssid == Some(ssid))));
        lemma_first_for_is(list, ssid, from + 1, i);
    }
}

proof fn lemma_first_numbered_is(list: Seq<Option<InfoModel>>, ssid: Seq<char>, from: int, i: int)
    requires
        0 <= from <= i <= list.len(),
        forall|j: int|
            from <= j < i ==> !(#[trigger] list[j] matches Some(p) && is_numbered(p, ssid)),
        i < list.len() ==> (list[i] matches Some(p) && is_numbered(p, ssid)),
    ensures
        first_numbered(list, ssid, from) == (if i < list.len() {
            Some(i)
        } else {
            None
        }),
    decreases i - from,
{
    if from < i {
        assert(!(list[from] matches Some(p) && is_numbered(p, ssid)));
        lemma_first_numbered_is(list, ssid, from + 1, i);
    }
}

/// The first saved profile that bears the SSID as its name or is for it is the one
/// that is found, at whatever place.
pub proof fn the_first_profile_for_an_ssid_is_found(
    list: Seq<Option<InfoModel>>,
    ssid: Seq<char>,
    i: int,
)
    requires
        0 <= i < list.len(),
        forall|j: int|
            0 <= j < i ==> !(#[trigger] list[j] matches Some(p) && (p.id == Some(ssid) || p.ssid
                == Some(ssid))),
        list[i] matches Some(p) && (p.id == Some(ssid) || p.ssid == Some(ssid)),
    ensures
        profile_for(list, ssid) == Some(i),
{
    lemma_first_for_is(list, ssid, 0, i);
}

/// Where no saved profile is for an SSID, the first one that bears it with a
/// number is found, and where there is none either, nothing.
pub proof fn a_numbered_profile_stands_in(
    list: Seq<Option<InfoModel>>,
    ssid: Seq<char>,
    i: int,
)
    requires
        0 <= i <= list.len(),
        forall|j: int|
            0 <= j < list.len() ==> !(#[trigger] list[j] matches Some(p) && (p.id == Some(ssid)
                || p.ssid == Some(ssid))),
        forall|j: int|
            0 <= j < i ==> !(#[trigger] list[j] matches Some(p) && is_numbered(p, ssid)),
        i < list.len() ==> (list[i] matches Some(p) && is_numbered(p, ssid)),
    ensures
        profile_for(list, ssid) == (if i < list.len() {
            Some(i)
        } else {
            None
        }),
{
    lemma_first_for_is(list, ssid, 0, list.len() as int);
    lemma_first_numbered_is(list, ssid, 0, i);
}

/// What the settings of a connection say is read where it stands.
pub proof fn settings_are_read_where_they_stand(
    s: ConnectionModel,
    id: Seq<char>,
    kind: Seq<char>,
    ssid: Seq<u8>,
)
    ensures
        ({
            let c = "connection"@;
            let w = "802-11-wireless"@;
            &&& s.contains_key(c) && s[c].contains_key("id"@) && s[c]["id"@] == SettingModel::Text(
                id,
            ) ==> info(s).id == Some(id)
            &&& s.contains_key(c) && s[c].contains_key("type"@) && s[c]["type"@]
                == SettingModel::Text(kind) ==> info(s).kind == Some(kind)
            &&& s.contains_key(w) && s[w].contains_key("ssid"@) && s[w]["ssid"@]
                == SettingModel::Array(
                Seq::new(ssid.len(), |i: int| SettingModel::U8(ssid[i])),
            ) ==> info(s).ssid == Some(lossy_text(ssid))
            &&& !s.contains_key(c) ==> info(s).id is None && info(s).kind is None
            &&& !s.contains_key(w) ==> info(s).ssid is None
        }),
{
    let a = Seq::new(ssid.len(), |i: int| SettingModel::U8(ssid[i]));
    assert(a.map_values(|x: SettingModel| x->U8_0) =~= ssid);
    assert(forall|i: int| 0 <= i < a.len() ==> (#[trigger] a[i]) is U8);
}

/// What a new connection says besides its secret: its name, kind, identifier,
/// SSID, mode and hidden flag, and that addresses come by themselves.
pub proof fn a_new_connection_says_what_it_is(net: NetworkModel, uuid: Seq<char>)
    ensures
        ({
            let s = new_settings(net, uuid);
            let c = "connection"@;
            let w = "802-11-wireless"@;
            &&& s[c]["id"@] == SettingModel::Text(net.ssid)
            &&& s[c]["type"@] == SettingModel::Text(w)
            &&& s[c]["uuid"@] == SettingModel::Text(uuid)
            &&& s[w]["ssid"@] == SettingModel::Array(
                Seq::new(
                    vstd::utf8::encode_utf8(net.ssid).len(),
                    |i: int| SettingModel::U8(vstd::utf8::encode_utf8(net.ssid)[i]),
                ),
            )
            &&& s[w]["mode"@] == SettingModel::Text("infrastructure"@)
            &&& s[w]["hidden"@] == SettingModel::Bool(net.hidden)
            &&& s["ipv4"@]["method"@] == SettingModel::Text("auto"@)
            &&& s["ipv6"@]["method"@] == SettingModel::Text("auto"@)
        }),
{
    lemma_names_differ();
    lemma_keys_differ();
    reveal_strlit("ipv4");
    reveal_strlit("ipv6");
    assert("ipv4"@[3] == '4' && "ipv6"@[3] == '6');
    reveal_strlit("ssid");
    reveal_strlit("mode");
    assert("ssid"@[0] == 's' && "mode"@[0] == 'm');
    let b = vstd::utf8::encode_utf8(net.ssid);
    assert(b.map_values(|x: u8| SettingModel::U8(x)) =~= Seq::new(
        b.len(),
        |i: int| SettingModel::U8(b[i]),
    ));
}

/// The way into a network, in a new connection and in one that is brought up to
/// date: by its method where it has one, with what is known for that; else by its
/// password; else none.
pub proof fn the_way_in_is_written_down(net: NetworkModel, uuid: Seq<char>, s: ConnectionModel)
    ensures
        ({
            let sec = "802-11-wireless-security"@;
            let eap = "802-1x"@;
            let n = new_settings(net, uuid);
            let u = updated_settings(net, s);
            &&& net.eap is Some ==> {
                &&& n[sec]["key-mgmt"@] == SettingModel::Text("wpa-eap"@) && u[sec]["key-mgmt"@]
                    == SettingModel::Text("wpa-eap"@)
                &&& n[eap]["eap"@] == SettingModel::Array(
                    seq![SettingModel::Text(net.eap->Some_0)],
                ) && u[eap]["eap"@] == SettingModel::Array(
                    seq![SettingModel::Text(net.eap->Some_0)],
                )
                &&& net.identity matches Some(id) ==> n[eap]["identity"@] == SettingModel::Text(id)
                    && u[eap]["identity"@] == SettingModel::Text(id)
                &&& net.ca_cert matches Some(ca) ==> n[eap]["ca-cert"@] == bytes_value(
                    vstd::utf8::encode_utf8("file://"@ + ca),
                ) && u[eap]["ca-cert"@] == bytes_value(vstd::utf8::encode_utf8("file://"@ + ca))
                &&& net.password matches Some(pw) ==> n[eap]["password"@] == SettingModel::Text(pw)
                    && u[eap]["password"@] == SettingModel::Text(pw)
            }
            &&& net.eap is None && net.password is Some ==> {
                &&& n[sec]["key-mgmt"@] == SettingModel::Text("wpa-psk"@) && u[sec]["key-mgmt"@]
                    == SettingModel::Text("wpa-psk"@)
                &&& n[sec]["psk"@] == SettingModel::Text(net.password->Some_0) && u[sec]["psk"@]
                    == SettingModel::Text(net.password->Some_0)
                &&& !n.contains_key(eap)
            }
            &&& net.eap is None && net.password is None ==> !n.contains_key(sec)
                && !n.contains_key(eap)
            &&& u["802-11-wireless"@]["hidden"@] == SettingModel::Bool(net.hidden)
        }),
{
    lemma_names_differ();
    lemma_keys_differ();
    reveal_strlit("eap");
    reveal_strlit("identity");
    reveal_strlit("ca-cert");
    assert("eap"@.len() == 3 && "identity"@.len() == 8 && "ca-cert"@.len() == 7);
}

/// Pinning a DNS server writes it down, says that no other is to be used, and
/// leaves every other setting as it was.
pub proof fn a_pinned_server_is_the_only_one(
    s: ConnectionModel,
    dns: Seq<char>,
    name: Seq<char>,
    key: Seq<char>,
)
    ensures
        with_dns(s, dns)["ipv4"@]["dns"@] == SettingModel::Array(seq![SettingModel::Text(dns)]),
        with_dns(s, dns)["ipv4"@]["ignore-auto-dns"@] == SettingModel::Bool(true),
        !(name == "ipv4"@ && (key == "dns"@ || key == "ignore-auto-dns"@)) ==> value_at(
            with_dns(s, dns),
            name,
            key,
        ) == value_at(s, name, key),
{
    broadcast use lemma_with_value;

    reveal_strlit("dns");
    reveal_strlit("ignore-auto-dns");
    assert("dns"@.len() == 3 && "ignore-auto-dns"@.len() == 15);
}

/// Every wireless profile is listed, in the order of the saved ones, under its
/// name and its SSID, or twice its name where it has none; no other is.
pub proof fn every_wireless_profile_is_listed(
    a: Seq<Option<InfoModel>>,
    b: Seq<Option<InfoModel>>,
    p: InfoModel,
)
    ensures
        listings(a + b) == listings(a) + listings(b),
        listings(seq![None]).len() == 0,
        p.kind != Some("802-11-wireless"@) ==> listings(seq![Some(p)]).len() == 0,
        p.kind == Some("802-11-wireless"@) ==> ({
            let name = if p.id is Some {
                p.id->Some_0
            } else {
                Seq::<char>::empty()
            };
            let named = p.ssid is Some && p.ssid->Some_0.len() > 0;
            listings(seq![Some(p)]) == seq![
                (
                    name,
                    if named {
                        p.ssid->Some_0
                    } else {
                        name
                    },
                ),
            ]
        }),
    decreases b.len(),
{
    let none = Seq::<Option<InfoModel>>::empty();
    assert(seq![Some(p)].drop_last() =~= none);
    assert(seq![None::<InfoModel>].drop_last() =~= none);
    assert(listings(none).len() == 0);
    assert(seq![Some(p)].last() == Some(p));
    assert(seq![None::<InfoModel>].last() is None);
    reveal_with_fuel(listings, 2);
    if b.len() > 0 {
        every_wireless_profile_is_listed(a, b.drop_last(), p);
        assert((a + b).drop_last() =~= a + b.drop_last());
        assert((a + b).last() == b.last());
        assert(listings(a + b) =~= listings(a) + listings(b));
    } else {
        assert(a + b =~= a);
        assert(listings(a) + listings(b) =~= listings(a));
    }
}

/// With an SSID go, each once and in order, all profiles that bear it as their name
/// or are for it, at whatever place; a missing name or SSID counts as blank.
pub proof fn all_profiles_of_an_ssid_go(
    list: Seq<Option<InfoModel>>,
    ssid: Seq<char>,
    i: int,
)
    ensures
        doomed(list, ssid).contains(i) <==> 0 <= i < list.len() && list[i] is Some && ({
            let p = list[i]->Some_0;
            ||| p.id == Some(ssid)
            ||| p.ssid == Some(ssid)
            ||| ssid.len() == 0 && (p.id is None || p.ssid is None)
        }),
        forall|x: int, y: int|
            0 <= x < y < doomed(list, ssid).len() ==> #[trigger] doomed(list, ssid)[x]
                < #[trigger] doomed(list, ssid)[y] < list.len(),
        forall|x: int|
            0 <= x < doomed(list, ssid).len() ==> 0 <= #[trigger] doomed(list, ssid)[x]
                < list.len(),
    decreases list.len(),
{
    if list.len() > 0 {
        let rest = list.drop_last();
        let before = doomed(rest, ssid);
        let out = doomed(list, ssid);
        all_profiles_of_an_ssid_go(rest, ssid, i);
        if 0 <= i < rest.len() {
            assert(rest[i] == list[i]);
        }
        if before.contains(i) {
            let k = before.index_of(i);
            assert(out[k] == i);
        }
        if out.contains(i) && i < rest.len() {
            let k = out.index_of(i);
            assert(k < before.len());
            assert(before[k] == i);
        }
        if i == list.len() - 1 {
            if list.last() is Some && goes_with(list.last()->Some_0, ssid) {
                assert(out[before.len() as int] == i);
            } else if before.contains(i) {
                let k = before.index_of(i);
                assert(before[k] < rest.len());
            }
            let none = Seq::<char>::empty();
            if ssid.len() == 0 {
                assert(ssid =~= none);
            }
        }
        assert forall|x: int, y: int| 0 <= x < y < out.len() implies #[trigger] out[x]
            < #[trigger] out[y] < list.len() by {
            assert(out[x] == before[x]);
            if y < before.len() {
                assert(out[y] == before[y]);
                assert(before[x] < before[y]);
            }
        }
        assert forall|x: int| 0 <= x < out.len() implies 0 <= #[trigger] out[x] < list.len() by {
            if x < before.len() {
                assert(out[x] == before[x]);
            }
        }
    }
}

/// The SSIDs that are broadcast are those of all access points, at whatever place,
/// but blank ones, each once.
pub proof fn every_broadcast_ssid_is_seen(aps: Seq<ApModel>, ssid: Seq<char>)
    ensures
        broadcast_ssids(aps).contains(ssid) <==> ssid.len() > 0 && exists|i: int|
            0 <= i < aps.len() && (#[trigger] aps[i]).ssid == ssid,
        broadcast_ssids(aps).no_duplicates(),
    decreases aps.len(),
{
    if aps.len() > 0 {
        let rest = aps.drop_last();
        let before = broadcast_ssids(rest);
        let out = broadcast_ssids(aps);
        every_broadcast_ssid_is_seen(rest, ssid);
        if before.contains(ssid) {
            let i = choose|i: int| 0 <= i < rest.len() && (#[trigger] rest[i]).ssid == ssid;
            assert(aps[i].ssid == ssid);
            let k = before.index_of(ssid);
            assert(out[k] == ssid);
        }
        if exists|i: int| 0 <= i < aps.len() && (#[trigger] aps[i]).ssid == ssid {
            let i = choose|i: int| 0 <= i < aps.len() && (#[trigger] aps[i]).ssid == ssid;
            if i < rest.len() {
                assert(rest[i].ssid == ssid);
            } else if ssid.len() > 0 && !before.contains(ssid) {
                assert(out[before.len() as int] == ssid);
            }
        }
        if out.contains(ssid) && !before.contains(ssid) {
            let k = out.index_of(ssid);
            if k < before.len() {
                assert(before[k] == ssid);
            }
            assert(aps[aps.len() - 1].ssid == ssid);
        }
        assert forall|x: int, y: int|
            0 <= x < out.len() && 0 <= y < out.len() && x != y implies out[x] != out[y] by {
            if x < before.len() {
                assert(before.contains(before[x]));
            }
            if y < before.len() {
                assert(before.contains(before[y]));
            }
        }
    }
}

/// The signal of an SSID is that of its strongest access point, at whatever place;
/// one that no access point broadcasts has none.
pub proof fn no_signal_is_stronger(aps: Seq<ApModel>, ssid: Seq<char>, i: int)
    ensures
        strongest(aps, ssid) is Some <==> exists|k: int|
            0 <= k < aps.len() && (#[trigger] aps[k]).ssid == ssid,
        strongest(aps, ssid) matches Some(s) ==> (exists|k: int|
            0 <= k < aps.len() && (#[trigger] aps[k]).ssid == ssid && aps[k].strength == s) && (0
            <= i < aps.len() && aps[i].ssid == ssid ==> aps[i].strength <= s),
    decreases aps.len(),
{
    if aps.len() > 0 {
        let rest = aps.drop_last();
        no_signal_is_stronger(rest, ssid, i);
        if 0 <= i < rest.len() {
            assert(rest[i] == aps[i]);
            assert(aps[i].ssid == ssid ==> strongest(rest, ssid) is Some);
        }
        assert(aps[aps.len() - 1] == aps.last());
        if strongest(rest, ssid) is Some {
            let s = strongest(rest, ssid)->Some_0;
            let k = choose|k: int|
                0 <= k < rest.len() && (#[trigger] rest[k]).ssid == ssid && rest[k].strength == s;
            assert(aps[k] == rest[k]);
        }
        if exists|k: int| 0 <= k < aps.len() && (#[trigger] aps[k]).ssid == ssid {
            let k = choose|k: int| 0 <= k < aps.len() && (#[trigger] aps[k]).ssid == ssid;
            if k < rest.len() {
                assert(rest[k].ssid == ssid);
            }
        }
    }
}

proof fn lemma_scanned_entry(aps: Seq<ApModel>, ssid: Seq<char>, i: int)
    requires
        ssid.len() > 0,
        0 <= i < aps.len(),
        aps[i].ssid == ssid,
        forall|j: int|
            0 <= j < i && (#[trigger] aps[j]).ssid == ssid ==> aps[j].strength < aps[i].strength,
        forall|j: int|
            i < j < aps.len() && (#[trigger] aps[j]).ssid == ssid ==> aps[j].strength
                <= aps[i].strength,
    ensures
        text::first_index(scan_names(scanned(aps)), ssid) < scanned(aps).len(),
        scanned(aps)[text::first_index(scan_names(scanned(aps)), ssid) as int] == scan_entry(
            aps[i],
        ),
    decreases aps.len(),
{
    let rest = aps.drop_last();
    let list = scanned(rest);
    let out = scanned(aps);
    let ids = scan_names(list);
    let ids2 = scan_names(out);
    let last = aps.last();
    text::lemma_first_index(ids, ssid);
    text::lemma_first_index(ids, last.ssid);
    text::lemma_first_index(ids2, ssid);
    let k = text::first_index(ids, ssid) as int;
    let m = text::first_index(ids, last.ssid) as int;
    lemma_rank_of_decimal(last.strength as nat);
    lemma_rank_of_decimal(aps[i].strength as nat);
    if i < rest.len() {
        assert forall|j: int|
            0 <= j < i && (#[trigger] rest[j]).ssid == ssid implies rest[j].strength
            < rest[i].strength by {
            assert(rest[j] == aps[j]);
        }
        assert forall|j: int|
            i < j < rest.len() && (#[trigger] rest[j]).ssid == ssid implies rest[j].strength
            <= rest[i].strength by {
            assert(rest[j] == aps[j]);
        }
        lemma_scanned_entry(rest, ssid, i);
        assert(aps[aps.len() - 1] == last);
        // What stood there still does: the last one is another's, or not stronger.
        assert(forall|j: int| 0 <= j < k ==> ids[j] != ssid);
        if last.ssid.len() > 0 {
            if m >= list.len() {
                assert(ids2 =~= ids.push(last.ssid));
            } else {
                assert(ids2 =~= ids);
            }
        }
        assert forall|j: int| 0 <= j < k implies ids2[j] != ssid by {
            assert(ids[j] != ssid);
        }
        text::lemma_first_index_is(ids2, ssid, k);
    } else {
        // The strongest comes last, and takes the place of what was shown.
        a_scan_shows_the_strongest(rest, ssid);
        no_signal_is_stronger(rest, ssid, 0);
        if k < list.len() {
            let s = strongest(rest, ssid)->Some_0;
            let j = choose|j: int|
                0 <= j < rest.len() && (#[trigger] rest[j]).ssid == ssid && rest[j].strength == s;
            assert(aps[j] == rest[j]);
            assert(rank(list[k].signal) == s);
            assert(ids2 =~= ids);
            text::lemma_first_index_is(ids2, ssid, k);
        } else {
            assert(ids2 =~= ids.push(ssid));
            assert forall|j: int| 0 <= j < k implies ids2[j] != ssid by {
                assert(ids[j] != ssid);
            }
            text::lemma_first_index_is(ids2, ssid, k);
        }
    }
}

/// A scan shows each SSID as its strongest access point has it, the first of
/// several as strong, with the strength in decimal.
pub proof fn a_scan_shows_the_strongest_access_point(aps: Seq<ApModel>, i: int)
    requires
        0 <= i < aps.len(),
        aps[i].ssid.len() > 0,
        forall|j: int|
            0 <= j < i && (#[trigger] aps[j]).ssid == aps[i].ssid ==> aps[j].strength
                < aps[i].strength,
        forall|j: int|
            i < j < aps.len() && (#[trigger] aps[j]).ssid == aps[i].ssid ==> aps[j].strength
                <= aps[i].strength,
    ensures
        exists|k: int|
            0 <= k < scanned(aps).len() && #[trigger] scanned(aps)[k] == (ScanModel {
                ssid: aps[i].ssid,
                signal: text::decimal(aps[i].strength as nat),
                security: security(aps[i].flags, aps[i].wpa, aps[i].rsn),
            }),
{
    lemma_scanned_entry(aps, aps[i].ssid, i);
    let k = text::first_index(scan_names(scanned(aps)), aps[i].ssid) as int;
    assert(scanned(aps)[k] == scan_entry(aps[i]));
}

/// The names for the ways an access point lets in, the strongest of them first.
pub proof fn security_has_its_names(flags: u32, wpa: u32, rsn: u32)
    ensures
        ({
            let s = security(flags, wpa, rsn);
            let open = flags & 1 == 0 && wpa == 0 && rsn == 0;
            let sae = rsn & 0x400 != 0;
            let psk1 = wpa & 0x100 != 0;
            let psk2 = rsn & 0x100 != 0;
            let ent = wpa & 0x200 != 0 || rsn & 0x200 != 0;
            &&& open ==> s == "--"@
            &&& !open && sae ==> s == "WPA3"@
            &&& !open && !sae && psk1 && psk2 ==> s == "WPA1 WPA2"@
            &&& !open && !sae && psk1 && !psk2 ==> s == "WPA1"@
            &&& !open && !sae && !psk1 && psk2 ==> s == "WPA2"@
            &&& !open && !sae && !psk1 && !psk2 && ent ==> s == "802.1X"@
            &&& !open && !sae && !psk1 && !psk2 && !ent ==> s == "WEP"@
        }),
{
}

/// A signal ranks by its number, with or without a percent sign and space around
/// it; one that is no number ranks below all that are shown.
pub proof fn a_signal_ranks_by_its_number(n: nat)
    requires
        n <= 0x7fff_ffff,
    ensures
        rank(text::decimal(n)) == n,
        rank(text::decimal(n).push('%')) == n,
        rank(Seq::empty()) == -100,
{
    lemma_rank_of_decimal(n);
    let s = text::decimal(n);
    let t = s.push('%');
    text::decimal_reads_back(n);
    assert(text::digit(s[0]));
    assert(text::digit(s[s.len() - 1]));
    assert(!text::space(s[0]) && !text::space(s.last()) && s.last() != '%');
    assert(t[0] == s[0] && t.last() == '%');
    assert(text::trimmed(t) == t);
    assert(t.drop_last() =~= s);
    assert(text::trimmed(s) == s);
    let none = Seq::<char>::empty();
    assert(text::trimmed(none) =~= none);
}

/// An interface is found by its name, the first of that name, at whatever place,
/// as long as every device before it tells its own.
pub proof fn a_device_is_found_by_its_name(list: Seq<DeviceModel>, iface: Seq<char>, i: int)
    requires
        0 <= i <= list.len(),
        forall|j: int|
            0 <= j < i ==> (#[trigger] list[j]).interface is Some && list[j].interface != Some(
                iface,
            ),
        i < list.len() ==> list[i].interface is None || list[i].interface == Some(iface),
    ensures
        path_of(list, iface) == (if i < list.len() && list[i].interface is Some {
            Some(list[i].path)
        } else {
            None
        }),
    decreases i,
{
    if i > 0 {
        let rest = list.drop_first();
        assert(list[0].interface is Some && list[0].interface != Some(iface));
        assert forall|j: int| 0 <= j < i - 1 implies (#[trigger] rest[j]).interface is Some
            && rest[j].interface != Some(iface) by {
            assert(rest[j] == list[j + 1]);
        }
        if i < list.len() {
            assert(rest[i - 1] == list[i]);
        }
        a_device_is_found_by_its_name(rest, iface, i - 1);
    }
}

/// The Wi-Fi devices are those of the second kind, in their order.
pub proof fn wifi_devices_are_of_their_kind(list: Seq<DeviceModel>)
    ensures
        wifi_paths(list) == list.filter(|d: DeviceModel| d.kind == Some(2u32)).map_values(
            |d: DeviceModel| d.path,
        ),
        (forall|j: int|
            0 <= j < list.len() ==> (#[trigger] list[j]).kind is Some && (list[j].kind == Some(2u32)
                ==> list[j].interface is Some)) ==> wifi_names(list) == Some(
            list.filter(|d: DeviceModel| d.kind == Some(2u32)).map_values(
                |d: DeviceModel| d.interface->Some_0,
            ),
        ),
    decreases list.len(),
{
    reveal(Seq::filter);
    if list.len() > 0 {
        let rest = list.drop_last();
        wifi_devices_are_of_their_kind(rest);
        if forall|j: int|
            0 <= j < list.len() ==> (#[trigger] list[j]).kind is Some && (list[j].kind == Some(2u32)
                ==> list[j].interface is Some) {
            assert forall|j: int| 0 <= j < rest.len() implies (#[trigger] rest[j]).kind is Some && (
            rest[j].kind == Some(2u32) ==> rest[j].interface is Some) by {
                assert(rest[j] == list[j]);
            }
            assert(list[list.len() - 1] == list.last());
        }
    } else {
        assert(wifi_paths(list) =~= list.map_values(|d: DeviceModel| d.path));
        assert(list.map_values(|d: DeviceModel| d.interface->Some_0) =~= Seq::empty());
    }
}

proof fn lemma_wifi_names(list: Seq<DeviceModel>, i: int)
    requires
        0 <= i < list.len(),
        list[i].kind == Some(2u32),
        wifi_names(list) is Some,
    ensures
        list[i].interface is Some,
        exists|k: int|
            0 <= k < wifi_names(list)->Some_0.len() && #[trigger] wifi_names(list)->Some_0[k]
                == list[i].interface->Some_0,
        (forall|j: int| 0 <= j < i ==> (#[trigger] list[j]).kind != Some(2u32)) ==> wifi_names(
            list,
        )->Some_0[0] == list[i].interface->Some_0 && wifi_names(list)->Some_0.len() > 0,
    decreases list.len(),
{
    let rest = list.drop_last();
    let names = wifi_names(list)->Some_0;
    let before = wifi_names(rest)->Some_0;
    if i < rest.len() {
        assert(rest[i] == list[i]);
        lemma_wifi_names(rest, i);
        let k = choose|k: int|
            0 <= k < before.len() && #[trigger] before[k] == rest[i].interface->Some_0;
        assert(names[k] == before[k]);
        assert(names[0] == before[0]);
        if forall|j: int| 0 <= j < i ==> (#[trigger] list[j]).kind != Some(2u32) {
            assert forall|j: int| 0 <= j < i implies (#[trigger] rest[j]).kind != Some(2u32) by {
                assert(rest[j] == list[j]);
            }
        }
    } else {
        assert(names[before.len() as int] == list[i].interface->Some_0);
        if forall|j: int| 0 <= j < i ==> (#[trigger] list[j]).kind != Some(2u32) {
            assert forall|j: int| 0 <= j < rest.len() implies (#[trigger] rest[j]).kind != Some(
                2u32,
            ) by {
                assert(rest[j] == list[j]);
            }
            lemma_no_wifi_names(rest);
        }
    }
}

proof fn lemma_no_wifi_names(list: Seq<DeviceModel>)
    requires
        forall|j: int| 0 <= j < list.len() ==> (#[trigger] list[j]).kind != Some(2u32),
    ensures
        wifi_names(list) matches Some(names) ==> names.len() == 0,
    decreases list.len(),
{
    if list.len() > 0 {
        let rest = list.drop_last();
        assert forall|j: int| 0 <= j < rest.len() implies (#[trigger] rest[j]).kind != Some(
            2u32,
        ) by {
            assert(rest[j] == list[j]);
        }
        lemma_no_wifi_names(rest);
        assert(list[list.len() - 1] == list.last());
    }
}

/// The preferred interface is taken where some Wi-Fi device has that name, at
/// whatever place; otherwise the first Wi-Fi device is.
pub proof fn the_preferred_interface_is_taken(
    list: Seq<DeviceModel>,
    pref: Option<Seq<char>>,
    i: int,
    first: int,
)
    requires
        wifi_names(list) is Some,
        0 <= first < list.len(),
        list[first].kind == Some(2u32),
        forall|j: int| 0 <= j < first ==> (#[trigger] list[j]).kind != Some(2u32),
    ensures
        0 <= i < list.len() && list[i].kind == Some(2u32) && pref is Some && list[i].interface
            == pref ==> chosen_interface(list, pref) == pref,
        pref is None ==> chosen_interface(list, pref) == list[first].interface,
        (forall|j: int|
            0 <= j < list.len() && (#[trigger] list[j]).kind == Some(2u32) ==> list[j].interface
                != pref) ==> chosen_interface(list, pref) == list[first].interface,
{
    lemma_wifi_names(list, first);
    let names = wifi_names(list)->Some_0;
    if 0 <= i < list.len() && list[i].kind == Some(2u32) {
        lemma_wifi_names(list, i);
        let k = choose|k: int|
            0 <= k < names.len() && #[trigger] names[k] == list[i].interface->Some_0;
        assert(names.contains(names[k]));
    }
    if pref is Some && names.contains(pref->Some_0) {
        lemma_wifi_names_come_from(list, names.index_of(pref->Some_0));
    }
}

proof fn lemma_wifi_names_come_from(list: Seq<DeviceModel>, k: int)
    requires
        wifi_names(list) is Some,
        0 <= k < wifi_names(list)->Some_0.len(),
    ensures
        exists|j: int|
            0 <= j < list.len() && (#[trigger] list[j]).kind == Some(2u32) && list[j].interface
                == Some(wifi_names(list)->Some_0[k]),
    decreases list.len(),
{
    if list.len() > 0 {
        let rest = list.drop_last();
        let before = wifi_names(rest)->Some_0;
        if k < before.len() {
            lemma_wifi_names_come_from(rest, k);
            let j = choose|j: int|
                0 <= j < rest.len() && (#[trigger] rest[j]).kind == Some(2u32) && rest[j].interface
                    == Some(before[k]);
            assert(list[j] == rest[j]);
        } else {
            assert(list[list.len() - 1] == list.last());
        }
    }
}

/// Without a Wi-Fi device there is no interface.
pub proof fn without_a_wifi_device_there_is_no_interface(
    list: Seq<DeviceModel>,
    pref: Option<Seq<char>>,
)
    requires
        forall|j: int| 0 <= j < list.len() ==> (#[trigger] list[j]).kind != Some(2u32),
    ensures
        chosen_interface(list, pref) is None,
{
    lemma_no_wifi_names(list);
}

/// An address is written byte by byte, the highest first.
pub proof fn an_address_is_written_byte_by_byte(a: nat, b: nat, c: nat, d: nat)
    requires
        a < 256,
        b < 256,
        c < 256,
        d < 256,
    ensures
        dotted(a * 0x100_0000 + b * 0x1_0000 + c * 0x100 + d) == text::decimal(a) + seq!['.']
            + text::decimal(b) + seq!['.'] + text::decimal(c) + seq!['.'] + text::decimal(d),
{
    reveal_strlit(".");
    assert("."@ =~= seq!['.']);
    let ip = a * 0x100_0000 + b * 0x1_0000 + c * 0x100 + d;
    assert(ip / 0x100_0000 % 256 == a);
    assert(ip / 0x1_0000 == a * 256 + b);
    assert(ip / 0x100 == a * 0x1_0000 + b * 256 + c);
    assert(ip / 0x1_0000 % 256 == b);
    assert(ip / 0x100 % 256 == c);
    assert(ip % 256 == d);
}

/// A byte is written as two lower-case hexadecimal digits, the higher first, and
/// can be read back from them.
pub proof fn a_byte_is_two_hexadecimal_digits(b: u8)
    ensures
        hex(b).len() == 2,
        forall|i: int|
            0 <= i < 2 ==> '0' <= #[trigger] hex(b)[i] <= '9' || 'a' <= hex(b)[i] <= 'f',
        ({
            let high = if hex(b)[0] <= '9' {
                hex(b)[0] as int - '0' as int
            } else {
                hex(b)[0] as int - 'a' as int + 10
            };
            let low = if hex(b)[1] <= '9' {
                hex(b)[1] as int - '0' as int
            } else {
                hex(b)[1] as int - 'a' as int + 10
            };
            b == 16 * high + low
        }),
{
    assert(hex(b)[0] == hex_digit(b as nat / 16));
    assert(hex(b)[1] == hex_digit(b as nat % 16));
}

/// The bytes of an identifier are written one after the other.
pub proof fn bytes_are_written_one_by_one(a: Seq<u8>, b: Seq<u8>, x: u8)
    ensures
        hex_all(a + b) == hex_all(a) + hex_all(b),
        hex_all(seq![x]) == hex(x),
        hex_all(Seq::empty()).len() == 0,
    decreases b.len(),
{
    let none = Seq::<u8>::empty();
    assert(seq![x].drop_last() =~= none);
    assert(hex_all(none) =~= Seq::<char>::empty());
    assert(seq![x].last() == x);
    assert(hex_all(seq![x]) == hex_all(seq![x].drop_last()) + hex(seq![x].last()));
    assert(Seq::<char>::empty() + hex(x) =~= hex(x));
    if b.len() > 0 {
        bytes_are_written_one_by_one(a, b.drop_last(), x);
        assert((a + b).drop_last() =~= a + b.drop_last());
        assert((a + b).last() == b.last());
        assert(hex_all(a + b) =~= hex_all(a) + hex_all(b));
    } else {
        assert(a + b =~= a);
        assert(hex_all(a) + hex_all(b) =~= hex_all(a));
    }
}

// ---- What holds of every connect -----------------------------------------

/// How a connect comes to its device: over the bus, by the name of the interface.
pub proof fn a_connect_finds_its_device(
    c: ConnectModel,
    list: Seq<DeviceModel>,
    i: int,
)
    requires
        0 <= i <= list.len(),
        forall|j: int|
            0 <= j < i ==> (#[trigger] list[j]).interface is Some && list[j].interface != Some(
                c.iface,
            ),
        i < list.len() ==> list[i].interface == Some(c.iface),
    ensures
        c.phase is Bus ==> step(c, ReplyModel::Bus(true)).1 is ListDevices,
        c.phase is Bus ==> (step(c, ReplyModel::Bus(false)).1 matches AskModel::Finish(r) && r
            is Err),
        c.phase is Devices && i < list.len() ==> step(c, ReplyModel::Devices(list)).1
            is ListProfiles && step(c, ReplyModel::Devices(list)).0.device == list[i].path,
        c.phase is Devices && i == list.len() ==> (step(
            c,
            ReplyModel::Devices(list),
        ).1 matches AskModel::Finish(r) && r is Err),
{
    a_device_is_found_by_its_name(list, c.iface, i);
}

/// A profile that is found is brought up to date first, where there is a password
/// to send or a flag to set, and then activated on the device. Where none is
/// found, a new one is made.
pub proof fn a_connect_uses_the_profile_it_found(
    c: ConnectModel,
    list: Seq<(Seq<char>, Option<InfoModel>)>,
    i: int,
    p: Seq<char>,
    s: ConnectionModel,
)
    requires
        0 <= i <= list.len(),
        forall|j: int|
            0 <= j < i ==> !((#[trigger] list[j]).1 matches Some(q) && (q.id == Some(c.net.ssid)
                || q.ssid == Some(c.net.ssid))),
        i < list.len() ==> (list[i].1 matches Some(q) && (q.id == Some(c.net.ssid) || q.ssid
            == Some(c.net.ssid))),
        i == list.len() ==> forall|j: int|
            0 <= j < list.len() ==> !((#[trigger] list[j]).1 matches Some(q) && is_numbered(
                q,
                c.net.ssid,
            )),
    ensures
        c.phase is Profiles && i < list.len() ==> ({
            let ask = step(c, ReplyModel::Profiles(list)).1;
            if c.net.password is Some || c.net.hidden {
                ask == AskModel::ReadSettings(list[i].0)
            } else {
                ask == AskModel::Activate { profile: list[i].0, device: c.device }
            }
        }),
        c.phase is Profiles && i == list.len() ==> ({
            let (d, ask) = step(c, ReplyModel::Profiles(list));
            ask == AskModel::AddAndActivate { device: c.device } && d.settings == new_settings(
                c.net,
                uuid_text(c.random),
            )
        }),
        c.phase == PhaseModel::Saved(p) ==> ({
            let (d, ask) = step(c, ReplyModel::Settings(Some(s)));
            ask == AskModel::Update(p) && d.settings == updated_settings(c.net, s) && d.phase
                == PhaseModel::Updated(p)
        }),
        c.phase == PhaseModel::Saved(p) ==> (step(
            c,
            ReplyModel::Settings(None),
        ).1 matches AskModel::Finish(r) && r is Err),
        c.phase == PhaseModel::Updated(p) ==> step(c, ReplyModel::Called(CallModel::Done)).1
            == (AskModel::Activate { profile: p, device: c.device }),
{
    let known = list.map_values(|e: (Seq<char>, Option<InfoModel>)| e.1);
    assert(forall|j: int| 0 <= j < list.len() ==> #[trigger] known[j] == list[j].1);
    if i < list.len() {
        assert forall|j: int| 0 <= j < i implies !(#[trigger] known[j] matches Some(q) && (q.id
            == Some(c.net.ssid) || q.ssid == Some(c.net.ssid))) by {
            assert(known[j] == list[j].1);
        }
        assert(known[i] == list[i].1);
        the_first_profile_for_an_ssid_is_found(known, c.net.ssid, i);
    } else {
        assert forall|j: int| 0 <= j < list.len() implies !(#[trigger] known[j] matches Some(q) && (
        q.id == Some(c.net.ssid) || q.ssid == Some(c.net.ssid))) by {
            assert(known[j] == list[j].1);
        }
        assert forall|j: int| 0 <= j < list.len() implies !(#[trigger] known[j] matches Some(q)
            && is_numbered(q, c.net.ssid)) by {
            assert(known[j] == list[j].1);
        }
        a_numbered_profile_stands_in(known, c.net.ssid, list.len() as int);
    }
}

/// A call that fails ends the connect with an error; one that is done leads to
/// polling the device, until it is up, gone or late. A device that is up ends it
/// well, unless there is a DNS server to pin.
pub proof fn a_connect_waits_for_its_device(
    c: ConnectModel,
    e: Seq<char>,
    state: u32,
    late: bool,
    p: Seq<char>,
)
    ensures
        c.phase is Activated || c.phase is Added ==> {
            &&& step(c, ReplyModel::Called(CallModel::Done)).1 == AskModel::PollDevice(c.device)
            &&& step(c, ReplyModel::Called(CallModel::Unavailable)).1 matches AskModel::Finish(r)
                && r is Err
            &&& step(c, ReplyModel::Called(CallModel::Failed(e))).1 matches AskModel::Finish(r) && r
                is Err
        },
        c.phase == PhaseModel::Updated(p) ==> {
            &&& step(c, ReplyModel::Called(CallModel::Unavailable)).1 matches AskModel::Finish(r)
                && r is Err
            &&& step(c, ReplyModel::Called(CallModel::Failed(e))).1 matches AskModel::Finish(r) && r
                is Err
        },
        c.phase is Waiting ==> {
            let t = step(c, ReplyModel::Polled(PollModel::State(state), late)).1;
            &&& state == 100 && text::trimmed(c.dns).len() == 0 ==> t == AskModel::Finish(Ok(()))
            &&& state == 100 && text::trimmed(c.dns).len() > 0 ==> t == AskModel::FindActive(
                c.iface,
            )
            &&& state != 100 && !late ==> t == AskModel::PollDevice(c.device)
            &&& state != 100 && late ==> (t matches AskModel::Finish(r) && r is Err)
            &&& step(c, ReplyModel::Polled(PollModel::Gone, late)).1 matches AskModel::Finish(r)
                && r is Err
            &&& step(c, ReplyModel::Polled(PollModel::Failed(e), late)).1 matches AskModel::Finish(
                r,
            ) && r is Err
        },
{
}

/// A DNS server is pinned in the settings of the active connection, which are then
/// applied to the device again. Whatever fails on the way there, the connect
/// itself has succeeded.
pub proof fn pinning_a_server_does_not_fail_a_connect(
    c: ConnectModel,
    p: Seq<char>,
    s: ConnectionModel,
    r: CallModel,
    list: Seq<DeviceModel>,
    i: int,
)
    requires
        0 <= i < list.len(),
        forall|j: int|
            0 <= j < i ==> (#[trigger] list[j]).interface is Some && list[j].interface != Some(
                c.iface,
            ),
        list[i].interface == Some(c.iface),
    ensures
        c.phase is DnsActive ==> step(c, ReplyModel::Path(Some(p))).1 == AskModel::ReadSettings(p),
        c.phase is DnsActive ==> step(c, ReplyModel::Path(None)).1 == AskModel::Finish(Ok(())),
        c.phase == PhaseModel::DnsSettings(p) ==> {
            let (d, ask) = step(c, ReplyModel::Settings(Some(s)));
            &&& ask == AskModel::Update(p)
            &&& d.settings == with_dns(s, c.dns)
            &&& step(c, ReplyModel::Settings(None)).1 == AskModel::Finish(Ok(()))
        },
        c.phase is DnsUpdated ==> step(c, ReplyModel::Called(r)).1 == (if r is Unavailable {
            AskModel::Finish(Ok(()))
        } else {
            AskModel::ListDevices
        }),
        c.phase is DnsDevices ==> step(c, ReplyModel::Devices(list)).1 == AskModel::Reapply(
            list[i].path,
        ),
        c.phase is Reapplied ==> step(c, ReplyModel::Called(r)).1 == AskModel::Finish(Ok(())),
{
    a_device_is_found_by_its_name(list, c.iface, i);
}

/// The models of what the manager tells hold each field as it is.
pub proof fn what_the_manager_tells_is_told_field_by_field(
    a: AccessPoint,
    e: ScanEntry,
    d: Device,
    p: ProfileInfo,
)
    ensures
        a@.ssid == a.ssid@,
        a@.strength == a.strength,
        a@.flags == a.flags,
        a@.wpa == a.wpa,
        a@.rsn == a.rsn,
        e@.ssid == e.ssid@,
        e@.signal == e.signal@,
        e@.security == e.security@,
        d@.path == d.path@,
        d@.kind == d.kind,
        d@.interface == text::opt_view(d.interface),
        p@.id == text::opt_view(p.id),
        p@.kind == text::opt_view(p.kind),
        p@.ssid == text::opt_view(p.ssid),
{
}

/// A raw access point is read field by field, its SSID as text.
pub proof fn an_access_point_is_read_field_by_field(raw: RawAccessPoint)
    ensures
        ap(raw).ssid == lossy_text(raw.ssid@),
        ap(raw).strength == raw.strength,
        ap(raw).flags == raw.flags,
        ap(raw).wpa == raw.wpa,
        ap(raw).rsn == raw.rsn,
{
}

/// A profile that is brought up to date has a section for its way in, whatever it
/// had before.
pub proof fn an_update_leaves_a_section_for_the_way_in(net: NetworkModel, s: ConnectionModel)
    ensures
        updated_settings(net, s).contains_key("802-11-wireless-security"@),
        updated_settings(net, s).contains_key("802-11-wireless"@),
{
}

/// An identifier holds the bytes it is made of, but for the bits that say of which
/// version and variant it is.
pub proof fn an_identifier_holds_its_bytes(b: Seq<u8>, i: int)
    requires
        b.len() == 16,
        0 <= i < 16,
    ensures
        ({
            let v = versioned(b);
            &&& v.len() == 16
            &&& i != 6 && i != 8 ==> v[i] == b[i]
            &&& v[6] / 16 == 4 && v[6] % 16 == b[6] % 16
            &&& v[8] / 64 == 2 && v[8] % 64 == b[8] % 64
            &&& uuid_text(b) == hex_all(v.take(4)) + seq!['-'] + hex_all(v.subrange(4, 6)) + seq![
                '-',
            ] + hex_all(v.subrange(6, 8)) + seq!['-'] + hex_all(v.subrange(8, 10)) + seq!['-']
                + hex_all(v.skip(10))
        }),
{
    let v = versioned(b);
    reveal_strlit("-");
    assert("-"@ =~= seq!['-']);
    assert(v.take(4) =~= v.subrange(0, 4));
    assert(v.skip(10) =~= v.subrange(10, 16));
}

/// Bytes that read as no text are no SSID; any other are the text they read as.
pub proof fn an_ssid_is_what_its_bytes_read_as(bytes: Seq<u8>, path: Seq<char>)
    ensures
        lossy_text(bytes).len() > 0 ==> ssid_text(bytes) == Some(lossy_text(bytes)),
        lossy_text(bytes).len() == 0 ==> ssid_text(bytes) is None,
        no_path(path) <==> path == seq!['/'],
{
    reveal_strlit("/");
    assert("/"@ =~= seq!['/']);
}

} // verus!
