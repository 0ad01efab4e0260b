#![allow(non_snake_case)]

use msm_graph::analysis::transitionDiagram;

#[test]
fn shouldFail_whenRowHasGuardWithNegationAndTemplateStart_butFileEnds()
{
    let transitionTable = "#include <boost/msm/front/state_machine_def.hpp>
#include <boost/msm/front/euml/operator.hpp>

struct State1 {};
struct State2 {};
struct Event {};

struct Machine : public boost::msm::front::state_machine_def<Machine>
{
    using None = boost::msm::front::none;
    template <class Source, class Event, class Target, class Action = None, class Guard = None>
    using Row = boost::msm::front::Row<Source, Event, Target, Action, Guard>;
    template <typename Type>
    using Not = boost::msm::front::euml::Not_<Type>;

    struct transition_table : boost::mpl::vector<
        Row<State1, Event, State2, None, Not<";
    assert_eq!(transitionDiagram(transitionTable), Err("While parsing a guard, tokens ended prematurely.".to_string()));
}

#[test]
fn shouldFail_whenRowHasGuardWithNegationAndTemplateStart_butNoTemplateEnd()
{
    let transitionTable = "#include <boost/msm/front/state_machine_def.hpp>
#include <boost/msm/front/euml/operator.hpp>

struct State1 {};
struct State2 {};
struct Event {};

struct Machine : public boost::msm::front::state_machine_def<Machine>
{
    using None = boost::msm::front::none;
    template <class Source, class Event, class Target, class Action = None, class Guard = None>
    using Row = boost::msm::front::Row<Source, Event, Target, Action, Guard>;
    template <typename Type = void>
    using Not = boost::msm::front::euml::Not_<Type>;

    struct transition_table : boost::mpl::vector<
        Row<State1, Event, State2, None, Not<
    {};
};";
    assert_eq!(transitionDiagram(transitionTable), Err("Expected an identifier or a template end, got: BlockStart.".to_string()));
}

#[test]
fn shouldPass_whenRowHasGuardWithNegationWithDefaultType()
{
    let transitionTable = "#include <boost/msm/front/state_machine_def.hpp>
#include <boost/msm/front/euml/operator.hpp>

struct State1 {};
struct State2 {};
struct Event {};

struct Machine : public boost::msm::front::state_machine_def<Machine>
{
    using None = boost::msm::front::none;
    template <class Source, class Event, class Target, class Action = None, class Guard = None>
    using Row = boost::msm::front::Row<Source, Event, Target, Action, Guard>;
    template <typename Type = void>
    using Not = boost::msm::front::euml::Not_<Type>;

    struct transition_table : boost::mpl::vector<
        Row<State1, Event, State2, None, Not<>>
    > {};
};";
    let expectedOutput = r"@startuml
hide empty description
[*] --> State1
State1 --> State2 : on Event\nif Not<>
@enduml
";
    let diagram = transitionDiagram(transitionTable).unwrap();
    assert_eq!(format!("{}\n", diagram), expectedOutput);
}

#[test]
fn shouldFail_whenRowHasGuardWithNegationAndInnerType_ButNoTemplateEnd()
{
    let transitionTable = "#include <boost/msm/front/state_machine_def.hpp>
#include <boost/msm/front/euml/operator.hpp>

struct State1 {};
struct State2 {};
struct Event {};

struct Guard
{
    template <class Fsm, class Event, class Source, class Target>
    void operator()(const Event&, Fsm&, Source&, Target&);
};

struct Machine : public boost::msm::front::state_machine_def<Machine>
{
    using None = boost::msm::front::none;
    template <class Source, class Event, class Target, class Action = None, class Guard = None>
    using Row = boost::msm::front::Row<Source, Event, Target, Action, Guard>;
    template <typename Type>
    using Not = boost::msm::front::euml::Not_<Type>;

    struct transition_table : boost::mpl::vector<
        Row<State1, Event, State2, None, Not<Guard
    {};
};";
    assert_eq!(transitionDiagram(transitionTable), Err("Expected a comma, template start or template end, got: BlockStart.".to_string()));
}

#[test]
fn shouldFail_whenRowHasGuardWithNegationAndInnerType_ButNoTemplateEndForRow()
{
    let transitionTable = "#include <boost/msm/front/state_machine_def.hpp>
#include <boost/msm/front/euml/operator.hpp>

struct State1 {};
struct State2 {};
struct Event {};

struct Guard
{
    template <class Fsm, class Event, class Source, class Target>
    void operator()(const Event&, Fsm&, Source&, Target&);
};

struct Machine : public boost::msm::front::state_machine_def<Machine>
{
    using None = boost::msm::front::none;
    template <class Source, class Event, class Target, class Action = None, class Guard = None>
    using Row = boost::msm::front::Row<Source, Event, Target, Action, Guard>;
    template <typename Type>
    using Not = boost::msm::front::euml::Not_<Type>;

    struct transition_table : boost::mpl::vector<
        Row<State1, Event, State2, None, Not<Guard>
    {};
};";
    assert_eq!(transitionDiagram(transitionTable), Err("Expected a template end, got: BlockStart.".to_string()));
}

#[test]
fn shouldPass_whenRowHasGuardWithNegationOfType()
{
    let transitionTable = "#include <boost/msm/front/state_machine_def.hpp>
#include <boost/msm/front/euml/operator.hpp>

struct State1 {};
struct State2 {};
struct Event {};

struct Guard
{
    template <class Fsm, class Event, class Source, class Target>
    void operator()(const Event&, Fsm&, Source&, Target&);
};

struct Machine : public boost::msm::front::state_machine_def<Machine>
{
    using None = boost::msm::front::none;
    template <class Source, class Event, class Target, class Action = None, class Guard = None>
    using Row = boost::msm::front::Row<Source, Event, Target, Action, Guard>;
    template <typename Type>
    using Not = boost::msm::front::euml::Not_<Type>;

    struct transition_table : boost::mpl::vector<
        Row<State1, Event, State2, None, Not<Guard>>
    > {};
};";
    let expectedOutput = r"@startuml
hide empty description
[*] --> State1
State1 --> State2 : on Event\nif Not<Guard>
@enduml
";
    let diagram = transitionDiagram(transitionTable).unwrap();
    assert_eq!(format!("{}\n", diagram), expectedOutput);
}

#[test]
fn shouldFail_whenRowHasGuardWithNegationAndInnerTypeAndTemplateStart_ButNoTemplateEnd()
{
    let transitionTable = "#include <boost/msm/front/state_machine_def.hpp>
#include <boost/msm/front/euml/operator.hpp>

struct State1 {};
struct State2 {};
struct Event {};

template <class Type = int>
struct Guard
{
    template <class Fsm, class Event, class Source, class Target>
    void operator()(const Event&, Fsm&, Source&, Target&);
};

struct Machine : public boost::msm::front::state_machine_def<Machine>
{
    using None = boost::msm::front::none;
    template <class Source, class Event, class Target, class Action = None, class Guard = None>
    using Row = boost::msm::front::Row<Source, Event, Target, Action, Guard>;
    template <typename Type>
    using Not = boost::msm::front::euml::Not_<Type>;

    struct transition_table : boost::mpl::vector<
        Row<State1, Event, State2, None, Not<Guard<
    {};
};";
    assert_eq!(transitionDiagram(transitionTable), Err("Expected an identifier or a template end, got: BlockStart.".to_string()));
}

#[test]
fn shouldFail_whenRowHasGuardWithNegationAndInnerTypeWithDefaultType_ButNoTemplateEndForGuard()
{
    let transitionTable = "#include <boost/msm/front/state_machine_def.hpp>
#include <boost/msm/front/euml/operator.hpp>

struct State1 {};
struct State2 {};
struct Event {};

template <class Type = int>
struct Guard
{
    template <class Fsm, class Event, class Source, class Target>
    void operator()(const Event&, Fsm&, Source&, Target&);
};

struct Machine : public boost::msm::front::state_machine_def<Machine>
{
    using None = boost::msm::front::none;
    template <class Source, class Event, class Target, class Action = None, class Guard = None>
    using Row = boost::msm::front::Row<Source, Event, Target, Action, Guard>;
    template <typename Type>
    using Not = boost::msm::front::euml::Not_<Type>;

    struct transition_table : boost::mpl::vector<
        Row<State1, Event, State2, None, Not<Guard<>
    {};
};";
    assert_eq!(transitionDiagram(transitionTable), Err("Expected a comma or a template end, got: BlockStart.".to_string()));
}

#[test]
fn shouldFail_whenRowHasGuardWithNegationAndInnerTypeWithDefaultType_ButNoTemplateEndForRow()
{
    let transitionTable = "#include <boost/msm/front/state_machine_def.hpp>
#include <boost/msm/front/euml/operator.hpp>

struct State1 {};
struct State2 {};
struct Event {};

template <class Type = int>
struct Guard
{
    template <class Fsm, class Event, class Source, class Target>
    void operator()(const Event&, Fsm&, Source&, Target&);
};

struct Machine : public boost::msm::front::state_machine_def<Machine>
{
    using None = boost::msm::front::none;
    template <class Source, class Event, class Target, class Action = None, class Guard = None>
    using Row = boost::msm::front::Row<Source, Event, Target, Action, Guard>;
    template <typename Type>
    using Not = boost::msm::front::euml::Not_<Type>;

    struct transition_table : boost::mpl::vector<
        Row<State1, Event, State2, None, Not<Guard<>>
    {};
};";
    assert_eq!(transitionDiagram(transitionTable), Err("Expected a template end, got: BlockStart.".to_string()));
}

#[test]
fn shouldFail_whenRowHasGuardWithNegationAndInnerTypeWithDefaultType_ButNoTemplateEndForTable()
{
    let transitionTable = "#include <boost/msm/front/state_machine_def.hpp>
#include <boost/msm/front/euml/operator.hpp>

struct State1 {};
struct State2 {};
struct Event {};

template <class Type = int>
struct Guard
{
    template <class Fsm, class Event, class Source, class Target>
    void operator()(const Event&, Fsm&, Source&, Target&);
};

struct Machine : public boost::msm::front::state_machine_def<Machine>
{
    using None = boost::msm::front::none;
    template <class Source, class Event, class Target, class Action = None, class Guard = None>
    using Row = boost::msm::front::Row<Source, Event, Target, Action, Guard>;
    template <typename Type>
    using Not = boost::msm::front::euml::Not_<Type>;

    struct transition_table : boost::mpl::vector<
        Row<State1, Event, State2, None, Not<Guard<>>>
    {};
};";
    assert_eq!(transitionDiagram(transitionTable), Err("Expected a comma or a template end after row, got: BlockStart.".to_string()));
}

#[test]
fn shouldPass_whenRowHasGuardWithNegationAndInnerTypeWithDefaultType()
{
    let transitionTable = "#include <boost/msm/front/state_machine_def.hpp>
#include <boost/msm/front/euml/operator.hpp>

struct State1 {};
struct State2 {};
struct Event {};

template <class Type = int>
struct Guard
{
    template <class Fsm, class Event, class Source, class Target>
    void operator()(const Event&, Fsm&, Source&, Target&);
};

struct Machine : public boost::msm::front::state_machine_def<Machine>
{
    using None = boost::msm::front::none;
    template <class Source, class Event, class Target, class Action = None, class Guard = None>
    using Row = boost::msm::front::Row<Source, Event, Target, Action, Guard>;
    template <typename Type>
    using Not = boost::msm::front::euml::Not_<Type>;

    struct transition_table : boost::mpl::vector<
        Row<State1, Event, State2, None, Not<Guard<>>>
    > {};
};";
    let expectedOutput = r"@startuml
hide empty description
[*] --> State1
State1 --> State2 : on Event\nif Not<Guard<>>
@enduml
";
    let diagram = transitionDiagram(transitionTable).unwrap();
    assert_eq!(format!("{}\n", diagram), expectedOutput);
}

#[test]
fn shouldFail_whenRowHasGuardWithConjunctionAndOneInnerTypeAndComma_ButNoSecondType()
{
    let transitionTable = "#include <boost/msm/front/state_machine_def.hpp>
#include <boost/msm/front/euml/operator.hpp>

struct State1 {};
struct State2 {};
struct Event {};

struct Guard1
{
    template <class Fsm, class Event, class Source, class Target>
    void operator()(const Event&, Fsm&, Source&, Target&);
};

struct Machine : public boost::msm::front::state_machine_def<Machine>
{
    using None = boost::msm::front::none;
    template <class Source, class Event, class Target, class Action = None, class Guard = None>
    using Row = boost::msm::front::Row<Source, Event, Target, Action, Guard>;
    template <typename Type1, typename Type2>
    using And = boost::msm::front::euml::And_<Type1, Type2>;

    struct transition_table : boost::mpl::vector<
        Row<State1, Event, State2, None, And<Guard1,>>
    > {};
};";
    assert_eq!(transitionDiagram(transitionTable), Err("Expected an identifier, got: TemplateEnd.".to_string()));
}

#[test]
fn shouldPass_whenRowHasGuardWithConjunctionOfTwoTypes()
{
    let transitionTable = "#include <boost/msm/front/state_machine_def.hpp>
#include <boost/msm/front/euml/operator.hpp>

struct State1 {};
struct State2 {};
struct Event {};

struct Guard1
{
    template <class Fsm, class Event, class Source, class Target>
    void operator()(const Event&, Fsm&, Source&, Target&);
};

struct Guard2
{
    template <class Fsm, class Event, class Source, class Target>
    void operator()(const Event&, Fsm&, Source&, Target&);
};

struct Machine : public boost::msm::front::state_machine_def<Machine>
{
    using None = boost::msm::front::none;
    template <class Source, class Event, class Target, class Action = None, class Guard = None>
    using Row = boost::msm::front::Row<Source, Event, Target, Action, Guard>;
    template <typename Type1, typename Type2>
    using And = boost::msm::front::euml::And_<Type1, Type2>;

    struct transition_table : boost::mpl::vector<
        Row<State1, Event, State2, None, And<Guard1, Guard2>>
    > {};
};";
    let expectedOutput = r"@startuml
hide empty description
[*] --> State1
State1 --> State2 : on Event\nif And<Guard1, Guard2>
@enduml
";
    let diagram = transitionDiagram(transitionTable).unwrap();
    assert_eq!(format!("{}\n", diagram), expectedOutput);
}
