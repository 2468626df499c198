use rowbinary::add;

#[test]
fn it_works() {
    let result = add(2, 2);
    assert_eq!(result, 4);
}

#[test]
fn mod_test() {
    let bytes = b"Hello, \xF0\x9F\x8C\x8E";
    println!("{:?}", bytes);

    let s = String::from_utf8_lossy(bytes);
    println!("{}", s);

    let new_bytes = s.as_bytes();
    println!("{:?}", new_bytes);
}

#[test]
fn value_test() {
    assert_eq!(1, 1);
}
