use swcc::formatter::format_source;

#[test]
fn formats_code_and_preserves_comments() {
    assert_eq!(
        format_source("function main():int{let x=1;// hi\nreturn x;}"),
        "function main(): int {\n    let x = 1;\n    // hi\n    return x;\n}\n"
    );
}

#[test]
fn formats_ternary_with_spaces_around_q_and_colon() {
    assert_eq!(
        format_source("const x=a>=0.0?0:1;"),
        "const x = a >= 0.0 ? 0 : 1;\n"
    );
}

#[test]
fn keeps_nullable_type_and_tryop_suffix_tight() {
    assert_eq!(
        format_source("function parse(x:int):int?{return x>0?x:null;}\nconst v=parse(5)?;"),
        "function parse(x: int): int? {\n    return x > 0 ? x : null;\n}\nconst v = parse(5)?;\n"
    );
}

#[test]
fn keeps_unary_minus_tight_in_ternary_and_args() {
    assert_eq!(
        format_source("const y=b>0?-1:2;\nconst f=fn_call(-1,+2);"),
        "const y = b > 0 ? -1 : 2;\nconst f = fn_call(-1, +2);\n"
    );
}

#[test]
fn formats_binary_minus_with_spaces() {
    assert_eq!(
        format_source("const sub=a-b;\nconst neg=-a;"),
        "const sub = a - b;\nconst neg = -a;\n"
    );
}

#[test]
fn keeps_generic_angle_brackets_tight() {
    assert_eq!(
        format_source(
            "enum Result<T, E>{Ok(T),Err(E)}\nfunction make<T>(x:T):Box<T>{return new Box<T>(x);}"
        ),
        "enum Result<T, E> {\n    Ok(T),\n    Err(E)\n}\nfunction make<T>(x: T): Box<T> {\n    return new Box<T>(x);\n}\n"
    );
}

#[test]
fn keeps_nested_generic_angle_brackets_tight() {
    assert_eq!(
        format_source("const d:Box<Box<int>>=new Box<Box<int>>(null);"),
        "const d: Box<Box<int>> = new Box<Box<int>>(null);\n"
    );
}

#[test]
fn keeps_comparison_operators_with_spaces() {
    assert_eq!(
        format_source("const a=1<2;\nconst b=x>0?1:2;"),
        "const a = 1 < 2;\nconst b = x > 0 ? 1 : 2;\n"
    );
}

#[test]
fn keeps_generic_class_implements_with_space() {
    assert_eq!(
        format_source("class Box<T>implements Container<T>{value:T;}"),
        "class Box<T> implements Container<T> {\n    value: T;\n}\n"
    );
}
