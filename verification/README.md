# asciiquarium

An aquarium of ASCII-art creatures for the terminal: fish, sharks, whales,
ducks, seaweed and a castle, with custom pictures swimming among them.

`src/` is the library, written in Verus and verified: the art and the shapes
parsed from it, colour masks, the command line, the rules that size a scene,
collisions, the composition of entities into a frame buffer, the planning of
terminal output, and the parsing of `chafa` output. Its laws (for instance,
that the planned output brings the screen to the new frame, or that the
nearest entity shows in every cell) are public proof functions.

`app/` is the program around it: terminal set-up and input, the animation
loop, and the entities, whose positions and speeds are floating point.

`tests/` exercise the library on concrete values.
