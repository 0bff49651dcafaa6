use nitrocop::cop::lint::deprecated_open_ssl_constant::{
    DeprecatedOpenSSLConstant, OpenSslArg, OpenSslCall, ParentPath, ReceiverPath,
};
use nitrocop::cop::lint::deprecated_class_methods::{
    ArgKind, CallArg, CallReceiver, DeprecatedCall, DeprecatedClassMethods,
};

fn recv(constant: Option<&[u8]>, start: usize, end: usize) -> Option<CallReceiver> {
    Some(CallReceiver { constant: constant.map(|c| c.to_vec()), start, end })
}

fn arg(kind: ArgKind, start: usize, end: usize) -> CallArg {
    CallArg { kind, start, end }
}

fn check(src: &[u8], name: &[u8], receiver: Option<CallReceiver>, arguments: Vec<CallArg>) -> Option<(usize, String)> {
    let call = DeprecatedCall { name: name.to_vec(), receiver, arguments, start: 0, end: src.len() - 1 };
    DeprecatedClassMethods
        .check_node(src, &call)
        .map(|d| (d.location.column, String::from_utf8(d.message).unwrap()))
}

#[test]
fn file_and_dir_exists() {
    let src = b"File.exists?(x)\n";
    let r = check(src, b"exists?", recv(Some(b"File"), 0, 4), vec![arg(ArgKind::Other, 13, 14)]);
    assert_eq!(r, Some((0, "`File.exists?` is deprecated in favor of `File.exist?`.".to_string())));
    let src = b"::Dir.exists?(x)\n";
    let r = check(src, b"exists?", recv(Some(b"Dir"), 0, 5), vec![arg(ArgKind::Other, 14, 15)]);
    assert_eq!(r, Some((0, "`::Dir.exists?` is deprecated in favor of `::Dir.exist?`.".to_string())));
    let src = b"Custom::File.exists?(x)\n";
    assert_eq!(check(src, b"exists?", recv(None, 0, 12), vec![arg(ArgKind::Other, 21, 22)]), None);
}

#[test]
fn env_methods() {
    let r = check(b"ENV.dup\n", b"dup", recv(Some(b"ENV"), 0, 3), vec![]);
    assert_eq!(r, Some((0, "`ENV.dup` is deprecated in favor of `ENV.to_h`.".to_string())));
    let r = check(b"ENV.freeze\n", b"freeze", recv(Some(b"ENV"), 0, 3), vec![]);
    assert_eq!(r, Some((0, "`ENV.freeze` is deprecated in favor of `ENV`.".to_string())));
    assert_eq!(check(b"ENV.clone(x)\n", b"clone", recv(Some(b"ENV"), 0, 3), vec![arg(ArgKind::Other, 10, 11)]), None);
}

#[test]
fn receiverless_methods() {
    let r = check(b"iterator?\n", b"iterator?", None, vec![]);
    assert_eq!(r, Some((0, "`iterator?` is deprecated in favor of `block_given?`.".to_string())));
    let src = b"attr :name, true\n";
    let r = check(src, b"attr", None, vec![arg(ArgKind::Other, 5, 10), arg(ArgKind::True, 12, 16)]);
    assert_eq!(r, Some((0, "`attr :name, true` is deprecated in favor of `attr_accessor :name`.".to_string())));
    let src = b"attr :name, false\n";
    let r = check(src, b"attr", None, vec![arg(ArgKind::Other, 5, 10), arg(ArgKind::False, 12, 17)]);
    assert_eq!(r, Some((0, "`attr :name, false` is deprecated in favor of `attr_reader :name`.".to_string())));
    assert_eq!(check(b"attr :name\n", b"attr", None, vec![arg(ArgKind::Other, 5, 10)]), None);
}

#[test]
fn socket_methods() {
    let src = b"Socket.gethostbyname(h)\n";
    let r = check(src, b"gethostbyname", recv(Some(b"Socket"), 0, 6), vec![arg(ArgKind::Other, 21, 22)]);
    assert_eq!(r, Some((0, "`Socket.gethostbyname` is deprecated in favor of `Addrinfo.getaddrinfo`.".to_string())));
    let src = b"Socket.gethostbyaddr(h)\n";
    let r = check(src, b"gethostbyaddr", recv(Some(b"Socket"), 0, 6), vec![arg(ArgKind::Other, 21, 22)]);
    assert_eq!(r, Some((0, "`Socket.gethostbyaddr` is deprecated in favor of `Addrinfo#getnameinfo`.".to_string())));
}

fn openssl_call(name: &[u8], arguments: Vec<OpenSslArg>, algo: &[u8], parent: &[u8], grandparent: &[u8], src_len: usize) -> OpenSslCall {
    let recv_end = 9 + parent.len() + 2 + algo.len();
    let _ = src_len;
    OpenSslCall {
        name: name.to_vec(),
        arguments,
        receiver: Some(ReceiverPath {
            name: Some(algo.to_vec()),
            start: 0,
            end: recv_end,
            parent: Some(ParentPath { name: Some(parent.to_vec()), start: 0, end: 9 + parent.len(), grandparent: Some(grandparent.to_vec()) }),
        }),
        start: 0,
    }
}

#[test]
fn openssl_cipher_constant_reported() {
    let src = b"OpenSSL::Cipher::AES.new('128-CBC')\n";
    let call = openssl_call(b"new", vec![OpenSslArg::Other], b"AES", b"Cipher", b"OpenSSL", src.len());
    let d = DeprecatedOpenSSLConstant.check_node(src, &call).unwrap();
    assert_eq!(d.location.column, 0);
    assert_eq!(String::from_utf8(d.message).unwrap(), "Use `OpenSSL::Cipher` instead of `OpenSSL::Cipher::AES`.");
}

#[test]
fn openssl_digest_alias_and_dynamic_arguments_skipped() {
    let src = b"OpenSSL::Digest::Digest.new('SHA1')\n";
    let call = openssl_call(b"new", vec![OpenSslArg::Other], b"Digest", b"Digest", b"OpenSSL", src.len());
    assert!(DeprecatedOpenSSLConstant.check_node(src, &call).is_none());
    let src = b"OpenSSL::Digest::SHA256.digest(data)\n";
    let call = openssl_call(b"digest", vec![OpenSslArg::Variable], b"SHA256", b"Digest", b"OpenSSL", src.len());
    assert!(DeprecatedOpenSSLConstant.check_node(src, &call).is_none());
    let call = openssl_call(b"digest", vec![OpenSslArg::Other], b"SHA256", b"Digest", b"OpenSSL", src.len());
    let d = DeprecatedOpenSSLConstant.check_node(src, &call).unwrap();
    assert_eq!(String::from_utf8(d.message).unwrap(), "Use `OpenSSL::Digest` instead of `OpenSSL::Digest::SHA256`.");
    let src = b"Foo::Cipher::AES.new('x')\n";
    let call = openssl_call(b"new", vec![OpenSslArg::Other], b"AES", b"Cipher", b"Foo", src.len());
    assert!(DeprecatedOpenSSLConstant.check_node(src, &call).is_none());
}
