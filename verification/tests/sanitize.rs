use katas::sanitize::flag_trim;
use katas::sanitize::round_trim::sanitize;

#[test]
fn test_empty() {
    assert_eq!(flag_trim::sanitize(""), "");
}

#[test]
fn test_correct() {
    assert_eq!(flag_trim::sanitize("123"), "123");
}

#[test]
fn test_remove_x() {
    assert_eq!(flag_trim::sanitize("ix"), "i");
    assert_eq!(flag_trim::sanitize("ox"), "");
}

#[test]
fn test_fail_x() {
    assert_eq!(flag_trim::sanitize("xox"), "");
}

#[test]
fn test_exe() {
    assert_eq!(flag_trim::sanitize(".exeo.exe"), "");
}

#[test]
fn test_exe1() {
    assert_eq!(flag_trim::sanitize("o.exex"), "");
}

#[test]
fn test_exe2() {
    assert_eq!(flag_trim::sanitize(".exei.exe"), ".exei");
}

#[test]
fn clean_input() {
    assert_eq!(sanitize(""), "", "empty");
    assert_eq!(sanitize("b"), "b", "one lower letter");
    assert_eq!(sanitize("if"), "if", "two lower letters");
    assert_eq!(sanitize("bar"), "bar", "three lowers letters");
    assert_eq!(sanitize("W"), "W", "one upper letter");
    assert_eq!(sanitize("YC"), "YC", "two upper letters");
    assert_eq!(sanitize("BOT"), "BOT", "three upper letters");
    assert_eq!(
        sanitize("FooBar"),
        "FooBar",
        "upper and lower letters starting with upper"
    );
    assert_eq!(
        sanitize("lowHigh"),
        "lowHigh",
        "upper and lower letters starting with lower"
    );
    assert_eq!(sanitize("O"), "O", "just 'O'");
    assert_eq!(sanitize("X"), "X", "just 'X'");
    assert_eq!(sanitize(".EXE"), ".EXE", "just '.EXE'");
    assert_eq!(sanitize("wow.o."), "wow.o.", "just '.EXE'");
    assert_eq!(sanitize("wow.x."), "wow.x.", "just '.EXE'");
    assert_eq!(sanitize("wow.x."), "wow.x.", "just '.EXE'");
    assert_eq!(sanitize("wow.exe."), "wow.exe.", "just '.EXE'");
    assert_eq!(sanitize("wow.exe."), "wow.exe.", "just '.EXE'");
    assert_eq!(sanitize("wow.exeox."), "wow.exeox.", "just '.EXE'");
}

#[test]
fn inputs_ending_with_o() {
    assert_eq!(sanitize("o"), "", "just 'o'");
    assert_eq!(sanitize("bo"), "b", "two lower letters, last is 'o'");
    assert_eq!(sanitize("Ro"), "R", "one upper letter plus 'o'");
    assert_eq!(
        sanitize("readOnlyo"),
        "readOnly",
        "mix upper lower letters ending with 'o'"
    );
    assert_eq!(sanitize("ooo"), "", "just 'ooo'");
    assert_eq!(
        sanitize("ALotOfooooo"),
        "ALotOf",
        "mix upper lower letters ending with 'ooooo'"
    );
}

#[test]
fn inputs_ending_with_x() {
    assert_eq!(sanitize("x"), "", "just x");
    assert_eq!(sanitize("yx"), "y", "two lower letters, last is 'x'");
    assert_eq!(sanitize("Tx"), "T", "one upper letter plus 'x'");
    assert_eq!(
        sanitize("teoDorusx"),
        "teoDorus",
        "mix upper and lower letters ending with 'x'"
    );
    assert_eq!(sanitize("xxxx"), "", "just 'xxxx'");
    assert_eq!(
        sanitize("WowHaxx"),
        "WowHa",
        "mix upper and lower letters ending with 'xx'"
    );
}

#[test]
fn inputs_ending_with_dot_exe() {
    assert_eq!(sanitize(".exe"), "", "just '.exe'");
    assert_eq!(
        sanitize("myfile.exe"),
        "myfile",
        "word with lower letters ending with '.exe'"
    );
    assert_eq!(
        sanitize("MYFILE.exe"),
        "MYFILE",
        "word with up letters ending with '.exe'"
    );
    assert_eq!(
        sanitize("myFile.exe"),
        "myFile",
        "mix upper and lower letters ending with '.exe'"
    );
    assert_eq!(sanitize(".exe.exe.exe"), "", "just '.exe.exe.exe'");
    assert_eq!(
        sanitize("win.exe.exe"),
        "win",
        "mix upper and lower letters ending with '.exe.exe'"
    );
}

#[test]
fn inputs_ending_with_combined_o_x_dot_exe() {
    assert_eq!(sanitize("o.exe"), "", "just 'o.exe'");
    assert_eq!(sanitize("x.exe"), "", "just 'x.exe'");
    assert_eq!(sanitize("ox.exe"), "", "just 'ox.exe'");
    assert_eq!(sanitize("xo.exe"), "", "just 'xo.exe'");
    assert_eq!(sanitize(".exeo"), "", "just '.exeo'");
    assert_eq!(sanitize(".exex"), "", "just '.exex'");
    assert_eq!(sanitize(".exeox"), "", "just '.exeox'");
    assert_eq!(sanitize(".exexo"), "", "just '.exexo'");
    assert_eq!(sanitize("yup.exeo"), "yup", "ending with '.exeo'");
    assert_eq!(sanitize("bee.exex"), "bee", "ending with '.exex'");
    assert_eq!(sanitize("yup.exeoo"), "yup", "ending with '.exeoo'");
    assert_eq!(sanitize("bee.exexx"), "bee", "ending with '.exexx'");
    assert_eq!(sanitize("yup.exeox"), "yup", "ending with '.exeox'");
    assert_eq!(sanitize("bee.exexo"), "bee", "ending with '.exexo'");
    assert_eq!(sanitize("myfileo.exe"), "myfile", "ending with 'o.exe'");
    assert_eq!(sanitize("wowx.exe"), "wow", "ending with 'x.exe'");
    assert_eq!(sanitize("billox.exe"), "bill", "ending with 'ox.exe'");
    assert_eq!(sanitize("billxo.exe"), "bill", "ending with 'xo.exe'");
    assert_eq!(
        sanitize("git.exe.exeox.exex.exeo"),
        "git",
        "ending with '.exe.exeox.exex.exeo'"
    );
    assert_eq!(
        sanitize("svnxo.exe.exeoxxo.exexxoo.exeoxoooxoxo"),
        "svn",
        "ending with '.exe.exeoxxo.exexxoo.exeoxoooxoxo'"
    );
}

#[test]
fn sanitize_variants_agree() {
    for s in ["", "abc", "xox", ".exei.exe", "wow.exeox.", "ALotOfooooo", "bee.exexo"] {
        assert_eq!(flag_trim::sanitize(s), sanitize(s));
    }
}
