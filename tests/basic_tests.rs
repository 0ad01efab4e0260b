#![allow(non_snake_case)]

use msm_graph::analysis::transitionDiagram;
use msm_graph::analysis::filePathArgument;

#[test]
fn basic_tests_shouldFail_whenNoFilePathIsProvided()
{
    let args = vec!["msm_graph".to_string()];
    assert_eq!(filePathArgument(&args), Err("Please provide a path to a file to analyze.".to_string()));
}

#[test]
fn basic_tests_shouldFail_whenTooManyArgumentsAreProvided()
{
    let args = vec!["msm_graph".to_string(), "file1".to_string(), "file2".to_string()];
    assert_eq!(filePathArgument(&args), Err("Too many arguments passed to program, expected only one with a file path, got 2".to_string()));
}

#[test]
fn basic_tests_shouldFail_whenFileDoesNotHaveTransitionTable()
{
    assert_eq!(transitionDiagram(""), Err("Transition table was not found.".to_string()));
}

#[test]
fn basic_tests_shouldFail_whenTransitionTableHasNoRows()
{
    let cppFileContent = r#"
#include <boost/msm/back/state_machine.hpp>
#include <boost/msm/front/state_machine_def.hpp>

struct StartState : public boost::msm::front::state<> {};
struct TargetState : public boost::msm::front::state<> {};
struct Event {};

struct MachineDef : public boost::msm::front::state_machine_def<MachineDef>
{
    using initial_state = StartState;

    struct transition_table : boost::mpl::vector<> {};
};

using Machine = boost::msm::back::state_machine<MachineDef>;

int main()
{
    Machine machine;
    machine.start();
    machine.process_event(Event{});
    return 0;
}
"#;
    assert_eq!(transitionDiagram(cppFileContent), Err("Rows were not found in the transition table.".to_string()));
}

#[test]
fn basic_tests_shouldFail_whenFirstRowIdentifierDoesNotEndWithRow()
{
    let cppFileContent = r#"
#include <boost/msm/back/state_machine.hpp>
#include <boost/msm/front/state_machine_def.hpp>

struct StartState : public boost::msm::front::state<> {};
struct TargetState : public boost::msm::front::state<> {};
struct Event {};
struct not_a_row_identifier {};

struct MachineDef : public boost::msm::front::state_machine_def<MachineDef>
{
    using initial_state = StartState;

    struct transition_table : boost::mpl::vector<
        not_a_row_identifier
    > {};
};

using Machine = boost::msm::back::state_machine<MachineDef>;

int main()
{
    Machine machine;
    machine.start();
    machine.process_event(Event{});
    return 0;
}
"#;
    assert_eq!(transitionDiagram(cppFileContent), Err("Rows were not found in the transition table.".to_string()));
}

#[test]
fn basic_tests_shouldFail_whenRowDoesNotHaveTemplateStartSymbol()
{
    let cppFileContent = r#"
#include <boost/msm/back/state_machine.hpp>
#include <boost/msm/front/state_machine_def.hpp>

struct StartState : public boost::msm::front::state<> {};
struct TargetState : public boost::msm::front::state<> {};
struct Event {};

struct MachineDef : public boost::msm::front::state_machine_def<MachineDef>
{
    using initial_state = StartState;

    struct transition_table : boost::mpl::vector<
        _row
    > {};
};

using Machine = boost::msm::back::state_machine<MachineDef>;

int main()
{
    Machine machine;
    machine.start();
    machine.process_event(Event{});
    return 0;
}
"#;
    assert_eq!(transitionDiagram(cppFileContent), Err("Expected row template start, got: TemplateEnd.".to_string()));
}

#[test]
fn basic_tests_shouldFail_whenRowIsEmpty()
{
    let cppFileContent = r#"
#include <boost/msm/back/state_machine.hpp>
#include <boost/msm/front/state_machine_def.hpp>

struct StartState : public boost::msm::front::state<> {};
struct TargetState : public boost::msm::front::state<> {};
struct Event {};

struct MachineDef : public boost::msm::front::state_machine_def<MachineDef>
{
    using initial_state = StartState;

    struct transition_table : boost::mpl::vector<
        _row<>
    > {};
};

using Machine = boost::msm::back::state_machine<MachineDef>;

int main()
{
    Machine machine;
    machine.start();
    machine.process_event(Event{});
    return 0;
}
"#;
    assert_eq!(transitionDiagram(cppFileContent), Err("Expected start state, got: TemplateEnd.".to_string()));
}

#[test]
fn basic_tests_shouldFail_whenRowDoesNotStartWithIdentifier()
{
    let cppFileContent = r#"
#include <boost/msm/back/state_machine.hpp>
#include <boost/msm/front/state_machine_def.hpp>

struct StartState : public boost::msm::front::state<> {};
struct TargetState : public boost::msm::front::state<> {};
struct Event {};

struct MachineDef : public boost::msm::front::state_machine_def<MachineDef>
{
    using initial_state = StartState;

    struct transition_table : boost::mpl::vector<
        _row<,>
    > {};
};

using Machine = boost::msm::back::state_machine<MachineDef>;

int main()
{
    Machine machine;
    machine.start();
    machine.process_event(Event{});
    return 0;
}
"#;
    assert_eq!(transitionDiagram(cppFileContent), Err("Expected start state, got: Comma.".to_string()));
}

#[test]
fn basic_tests_shouldFail_whenRowHasOnlyStartState()
{
    let cppFileContent = r#"
#include <boost/msm/back/state_machine.hpp>
#include <boost/msm/front/state_machine_def.hpp>

struct StartState : public boost::msm::front::state<> {};
struct TargetState : public boost::msm::front::state<> {};
struct Event {};

struct MachineDef : public boost::msm::front::state_machine_def<MachineDef>
{
    using initial_state = StartState;

    struct transition_table : boost::mpl::vector<
        _row<StartState>
    > {};
};

using Machine = boost::msm::back::state_machine<MachineDef>;

int main()
{
    Machine machine;
    machine.start();
    machine.process_event(Event{});
    return 0;
}
"#;
    assert_eq!(transitionDiagram(cppFileContent), Err("Expected comma after start state, got: TemplateEnd.".to_string()));
}

#[test]
fn basic_tests_shouldFail_whenRowDoesNotHaveEvent()
{
    let cppFileContent = r#"
#include <boost/msm/back/state_machine.hpp>
#include <boost/msm/front/state_machine_def.hpp>

struct StartState : public boost::msm::front::state<> {};
struct TargetState : public boost::msm::front::state<> {};
struct Event {};

struct MachineDef : public boost::msm::front::state_machine_def<MachineDef>
{
    using initial_state = StartState;

    struct transition_table : boost::mpl::vector<
        _row<StartState,>
    > {};
};

using Machine = boost::msm::back::state_machine<MachineDef>;

int main()
{
    Machine machine;
    machine.start();
    machine.process_event(Event{});
    return 0;
}
"#;
    assert_eq!(transitionDiagram(cppFileContent), Err("Expected event, got: TemplateEnd.".to_string()));
}

#[test]
fn basic_tests_shouldFail_whenRowDoesNotHaveCommaAfterEvent()
{
    let cppFileContent = r#"
#include <boost/msm/back/state_machine.hpp>
#include <boost/msm/front/state_machine_def.hpp>

struct StartState : public boost::msm::front::state<> {};
struct TargetState : public boost::msm::front::state<> {};
struct Event {};

struct MachineDef : public boost::msm::front::state_machine_def<MachineDef>
{
    using initial_state = StartState;

    struct transition_table : boost::mpl::vector<
        _row<StartState, Event>
    > {};
};

using Machine = boost::msm::back::state_machine<MachineDef>;

int main()
{
    Machine machine;
    machine.start();
    machine.process_event(Event{});
    return 0;
}
"#;
    assert_eq!(transitionDiagram(cppFileContent), Err("Expected comma after event, got: TemplateEnd.".to_string()));
}

#[test]
fn basic_tests_shouldFail_whenRowDoesNotHaveTargetState()
{
    let cppFileContent = r#"
#include <boost/msm/back/state_machine.hpp>
#include <boost/msm/front/state_machine_def.hpp>

struct StartState : public boost::msm::front::state<> {};
struct TargetState : public boost::msm::front::state<> {};
struct Event {};

struct MachineDef : public boost::msm::front::state_machine_def<MachineDef>
{
    using initial_state = StartState;

    struct transition_table : boost::mpl::vector<
        _row<StartState, Event,>
    > {};
};

using Machine = boost::msm::back::state_machine<MachineDef>;

int main()
{
    Machine machine;
    machine.start();
    machine.process_event(Event{});
    return 0;
}
"#;
    assert_eq!(transitionDiagram(cppFileContent), Err("Expected target state, got: TemplateEnd.".to_string()));
}

#[test]
fn basic_tests_shouldFail_whenRowHasTargetStateAndDoesNotEndWithCommaOrTemplateEndSymbol()
{
    let cppFileContent = r#"
#include <boost/msm/back/state_machine.hpp>
#include <boost/msm/front/state_machine_def.hpp>

struct StartState : public boost::msm::front::state<> {};
struct TargetState : public boost::msm::front::state<> {};
struct Event {};

struct MachineDef : public boost::msm::front::state_machine_def<MachineDef>
{
    using initial_state = StartState;

    struct transition_table : boost::mpl::vector<
        _row<StartState, Event, TargetState
    {};
};

using Machine = boost::msm::back::state_machine<MachineDef>;

int main()
{
    Machine machine;
    machine.start();
    machine.process_event(Event{});
    return 0;
}
"#;
    assert_eq!(transitionDiagram(cppFileContent), Err("Expected comma or template end symbol after target state, got: BlockStart.".to_string()));
}

#[test]
fn shouldFail_whenTransitionTableDoesNotEndWithTemplateEnd()
{
    let cppFileContent = r#"
#include <boost/msm/back/state_machine.hpp>
#include <boost/msm/front/state_machine_def.hpp>

struct StartState : public boost::msm::front::state<> {};
struct TargetState : public boost::msm::front::state<> {};
struct Event {};

struct MachineDef : public boost::msm::front::state_machine_def<MachineDef>
{
    using initial_state = StartState;

    struct transition_table : boost::mpl::vector<
        _row<StartState, Event, TargetState>
    {};
};

using Machine = boost::msm::back::state_machine<MachineDef>;

int main()
{
    Machine machine;
    machine.start();
    machine.process_event(Event{});
    return 0;
}
"#;
    assert_eq!(transitionDiagram(cppFileContent), Err("Expected a comma or a template end after row, got: BlockStart.".to_string()));
}

#[test]
fn basic_tests_shouldPass_whenTransitionTableHasRowWithStartStateAndEventAndTargetState()
{
    let cppFileContent = r#"
#include <boost/msm/back/state_machine.hpp>
#include <boost/msm/front/state_machine_def.hpp>

struct StartState : public boost::msm::front::state<> {};
struct TargetState : public boost::msm::front::state<> {};
struct Event {};

struct MachineDef : public boost::msm::front::state_machine_def<MachineDef>
{
    using initial_state = StartState;

    struct transition_table : boost::mpl::vector<
        _row<StartState, Event, TargetState>
    > {};
};

using Machine = boost::msm::back::state_machine<MachineDef>;

int main()
{
    Machine machine;
    machine.start();
    machine.process_event(Event{});
    return 0;
}
"#;
    let expectedOutput = "@startuml
hide empty description
[*] --> StartState
StartState --> TargetState : on Event
@enduml
";
    let diagram = transitionDiagram(cppFileContent).unwrap();
    assert_eq!(format!("{}\n", diagram), expectedOutput);
}

#[test]
fn basic_tests_shouldFail_whenActionRowHasTargetStateAndCommaButNoAction()
{
    let cppFileContent = r#"
#include <boost/msm/back/state_machine.hpp>
#include <boost/msm/front/state_machine_def.hpp>
#include <iostream>

struct StartState : public boost::msm::front::state<> {};
struct TargetState : public boost::msm::front::state<> {};
struct Event {};

struct MachineDef : public boost::msm::front::state_machine_def<MachineDef>
{
    void action(const Event&)
    {
        std::cout << "performing action\n";
    }

    using initial_state = StartState;
    using M = MachineDef;

    struct transition_table : boost::mpl::vector<
        a_row<StartState, Event, TargetState,>
    > {};
};

using Machine = boost::msm::back::state_machine<MachineDef>;

int main()
{
    Machine machine;
    machine.start();
    machine.process_event(Event{});
    return 0;
}
"#;
    assert_eq!(transitionDiagram(cppFileContent), Err("Expected an action, got: TemplateEnd.".to_string()));
}

#[test]
fn shouldFail_whenRowHasActionAndDoesNotEndWithCommaOrTemplateEnd()
{
    let cppFileContent = r#"
#include <boost/msm/back/state_machine.hpp>
#include <boost/msm/front/state_machine_def.hpp>
#include <iostream>

struct StartState : public boost::msm::front::state<> {};
struct TargetState : public boost::msm::front::state<> {};
struct Event {};

struct MachineDef : public boost::msm::front::state_machine_def<MachineDef>
{
    void action(const Event&)
    {
        std::cout << "performing action\n";
    }

    using initial_state = StartState;
    using M = MachineDef;

    struct transition_table : boost::mpl::vector<
        a_row<StartState, Event, TargetState, &M::action
    {};
};

using Machine = boost::msm::back::state_machine<MachineDef>;

int main()
{
    Machine machine;
    machine.start();
    machine.process_event(Event{});
    return 0;
}
"#;
    assert_eq!(transitionDiagram(cppFileContent), Err("Expected a comma or a template end after action, got: BlockStart.".to_string()));
}

#[test]
fn basic_tests_shouldPass_whenTransitionTableHasRowWithStartStateAndEventAndTargetStateAndAction()
{
    let cppFileContent = r#"
#include <boost/msm/back/state_machine.hpp>
#include <boost/msm/front/state_machine_def.hpp>
#include <iostream>

struct StartState : public boost::msm::front::state<> {};
struct TargetState : public boost::msm::front::state<> {};
struct Event {};

struct MachineDef : public boost::msm::front::state_machine_def<MachineDef>
{
    void action(const Event&)
    {
        std::cout << "performing action\n";
    }

    using initial_state = StartState;
    using M = MachineDef;

    struct transition_table : boost::mpl::vector<
        a_row<StartState, Event, TargetState, &M::action>
    > {};
};

using Machine = boost::msm::back::state_machine<MachineDef>;

int main()
{
    Machine machine;
    machine.start();
    machine.process_event(Event{});
    return 0;
}
"#;
    let expectedOutput = r"@startuml
hide empty description
[*] --> StartState
StartState --> TargetState : on Event\ndo &M::action
@enduml
";
    let diagram = transitionDiagram(cppFileContent).unwrap();
    assert_eq!(format!("{}\n", diagram), expectedOutput);
}

#[test]
fn basic_tests_shouldFail_whenGuardRowHasTargetStateAndCommaButNoGuard()
{
    let cppFileContent = r#"
#include <boost/msm/back/state_machine.hpp>
#include <boost/msm/front/state_machine_def.hpp>

struct StartState : public boost::msm::front::state<> {};
struct TargetState : public boost::msm::front::state<> {};
struct Event {};

struct MachineDef : public boost::msm::front::state_machine_def<MachineDef>
{
    bool guard(const Event&)
    {
        return true;
    }

    using initial_state = StartState;
    using M = MachineDef;

    struct transition_table : boost::mpl::vector<
        g_row<StartState, Event, TargetState,>
    > {};
};

using Machine = boost::msm::back::state_machine<MachineDef>;

int main()
{
    Machine machine;
    machine.start();
    machine.process_event(Event{});
    return 0;
}
"#;
    assert_eq!(transitionDiagram(cppFileContent), Err("Expected a guard, got: TemplateEnd.".to_string()));
}

#[test]
fn basic_tests_shouldFail_whenRowHasGuardAndDoesNotEndWithTemplateEndSymbol()
{
    let cppFileContent = r#"
#include <boost/msm/back/state_machine.hpp>
#include <boost/msm/front/state_machine_def.hpp>

struct StartState : public boost::msm::front::state<> {};
struct TargetState : public boost::msm::front::state<> {};
struct Event {};

struct MachineDef : public boost::msm::front::state_machine_def<MachineDef>
{
    bool guard(const Event&)
    {
        return true;
    }

    using initial_state = StartState;
    using M = MachineDef;

    struct transition_table : boost::mpl::vector<
        g_row<StartState, Event, TargetState, &M::guard
    {};
};

using Machine = boost::msm::back::state_machine<MachineDef>;

int main()
{
    Machine machine;
    machine.start();
    machine.process_event(Event{});
    return 0;
}
"#;
    assert_eq!(transitionDiagram(cppFileContent), Err("Expected a template end, got: BlockStart.".to_string()));
}

#[test]
fn basic_tests_shouldPass_whenTransitionTableHasRowWithStartStateAndEventAndTargetStateAndGuard()
{
    let cppFileContent = r#"
#include <boost/msm/back/state_machine.hpp>
#include <boost/msm/front/state_machine_def.hpp>

struct StartState : public boost::msm::front::state<> {};
struct TargetState : public boost::msm::front::state<> {};
struct Event {};

struct MachineDef : public boost::msm::front::state_machine_def<MachineDef>
{
    bool guard(const Event&)
    {
        return true;
    }

    using initial_state = StartState;
    using M = MachineDef;

    struct transition_table : boost::mpl::vector<
        g_row<StartState, Event, TargetState, &M::guard>
    > {};
};

using Machine = boost::msm::back::state_machine<MachineDef>;

int main()
{
    Machine machine;
    machine.start();
    machine.process_event(Event{});
    return 0;
}
"#;
    let expectedOutput = r"@startuml
hide empty description
[*] --> StartState
StartState --> TargetState : on Event\nif &M::guard
@enduml
";
    let diagram = transitionDiagram(cppFileContent).unwrap();
    assert_eq!(format!("{}\n", diagram), expectedOutput);
}

#[test]
fn basic_tests_shouldFail_whenRowHasActionAndCommaButNoGuard()
{
    let cppFileContent = r#"
#include <boost/msm/back/state_machine.hpp>
#include <boost/msm/front/state_machine_def.hpp>
#include <iostream>

struct StartState : public boost::msm::front::state<> {};
struct TargetState : public boost::msm::front::state<> {};
struct Event {};

struct MachineDef : public boost::msm::front::state_machine_def<MachineDef>
{
    void action(const Event&)
    {
        std::cout << "performing action\n";
    }

    bool guard(const Event&)
    {
        return true;
    }

    using initial_state = StartState;
    using M = MachineDef;

    struct transition_table : boost::mpl::vector<
        row<StartState, Event, TargetState, &M::action,>
    > {};
};

using Machine = boost::msm::back::state_machine<MachineDef>;

int main()
{
    Machine machine;
    machine.start();
    machine.process_event(Event{});
    return 0;
}
"#;
    assert_eq!(transitionDiagram(cppFileContent), Err("Expected a guard, got: TemplateEnd.".to_string()));
}

#[test]
fn basic_tests_shouldFail_whenRowHasActionAndGuardButDoesNotEndWithTemplateEndSymbol()
{
    let cppFileContent = r#"
#include <boost/msm/back/state_machine.hpp>
#include <boost/msm/front/state_machine_def.hpp>
#include <iostream>

struct StartState : public boost::msm::front::state<> {};
struct TargetState : public boost::msm::front::state<> {};
struct Event {};

struct MachineDef : public boost::msm::front::state_machine_def<MachineDef>
{
    void action(const Event&)
    {
        std::cout << "performing action\n";
    }

    bool guard(const Event&)
    {
        return true;
    }

    using initial_state = StartState;
    using M = MachineDef;

    struct transition_table : boost::mpl::vector<
        row<StartState, Event, TargetState, &M::action, &M::guard
    {};
};

using Machine = boost::msm::back::state_machine<MachineDef>;

int main()
{
    Machine machine;
    machine.start();
    machine.process_event(Event{});
    return 0;
}
"#;
    assert_eq!(transitionDiagram(cppFileContent), Err("Expected a template end, got: BlockStart.".to_string()));
}

#[test]
fn basic_tests_shouldPass_whenTransitionTableHasRowWithStartStateAndEventAndTargetStateAndActionAndGuard()
{
    let cppFileContent = r#"
#include <boost/msm/back/state_machine.hpp>
#include <boost/msm/front/state_machine_def.hpp>
#include <iostream>

struct StartState : public boost::msm::front::state<> {};
struct TargetState : public boost::msm::front::state<> {};
struct Event {};

struct MachineDef : public boost::msm::front::state_machine_def<MachineDef>
{
    void action(const Event&)
    {
        std::cout << "performing action\n";
    }

    bool guard(const Event&)
    {
        return true;
    }

    using initial_state = StartState;
    using M = MachineDef;

    struct transition_table : boost::mpl::vector<
        row<StartState, Event, TargetState, &M::action, &M::guard>
    > {};
};

using Machine = boost::msm::back::state_machine<MachineDef>;

int main()
{
    Machine machine;
    machine.start();
    machine.process_event(Event{});
    return 0;
}
"#;
    let expectedOutput = r"@startuml
hide empty description
[*] --> StartState
StartState --> TargetState : on Event\nif &M::guard\ndo &M::action
@enduml
";
    let diagram = transitionDiagram(cppFileContent).unwrap();
    assert_eq!(format!("{}\n", diagram), expectedOutput);
}
